//! Streaming to The Handy: the requests of its cloud interface, what its
//! replies say, and when a position is worth sending.
use crate::http::{HttpMethod, HttpRequest, RequestView};
use crate::json::{
    as_bool, bool_in, contents, get, integer, json_of_text, make_object1, make_object3, member,
    object1, object3, parse, print, text_of_json, text_or, text_or_default, boolean, JsonView,
};
use crate::funscript::text_of;
use crate::text::{is_white, joined, lemma_trimmed, trim, trimmed};
use vstd::prelude::*;

verus! {

/// Device status and firmware info returned by Handy API v2
#[derive(Debug)]
pub struct HandyStatus {
    pub is_connected: bool,
    pub model: String,
    pub fw_version: String,
    pub hw_version: String,
    pub branch: String,
    pub mode: i32,
    pub last_ping_ms: u64,
}

/// The contents of a [`HandyStatus`].
#[verifier::ext_equal]
pub struct StatusView {
    pub is_connected: bool,
    pub model: Seq<char>,
    pub fw_version: Seq<char>,
    pub hw_version: Seq<char>,
    pub branch: Seq<char>,
    pub mode: i32,
    pub last_ping_ms: u64,
}

impl View for HandyStatus {
    type V = StatusView;

    open spec fn view(&self) -> StatusView {
        StatusView {
            is_connected: self.is_connected,
            model: self.model@,
            fw_version: self.fw_version@,
            hw_version: self.hw_version@,
            branch: self.branch@,
            mode: self.mode,
            last_ping_ms: self.last_ping_ms,
        }
    }
}

/// A device that is not connected.
pub open spec fn offline() -> StatusView {
    StatusView {
        is_connected: false,
        model: Seq::empty(),
        fw_version: Seq::empty(),
        hw_version: Seq::empty(),
        branch: Seq::empty(),
        mode: 0,
        last_ping_ms: 0,
    }
}

impl Default for HandyStatus {
    fn default() -> (res: Self)
        ensures
            res@ == offline(),
    {
        HandyStatus {
            is_connected: false,
            model: String::new(),
            fw_version: String::new(),
            hw_version: String::new(),
            branch: String::new(),
            mode: 0,
            last_ping_ms: 0,
        }
    }
}

/// The requests of the HandyFeeling API v2
#[derive(Debug)]
pub struct HandyHttpClient {
    pub base_url: String,
}

/// A request that names the device by its key and wants JSON back.
pub open spec fn query_request(base: Seq<char>, path: Seq<char>, key: Seq<char>) -> RequestView {
    RequestView {
        method: HttpMethod::Get,
        url: base + path,
        headers: seq![("X-Connection-Key"@, trimmed(key)), ("Accept"@, "application/json"@)],
        body: Seq::empty(),
    }
}

/// A request that names the device by its key and sends a JSON document.
pub open spec fn command_request(
    base: Seq<char>,
    path: Seq<char>,
    key: Seq<char>,
    payload: JsonView,
) -> RequestView {
    RequestView {
        method: HttpMethod::Put,
        url: base + path,
        headers: seq![("X-Connection-Key"@, trimmed(key)), ("Content-Type"@, "application/json"@)],
        body: text_of_json(payload),
    }
}

/// The document that sets an operating mode.
pub open spec fn mode_payload(mode: i32) -> JsonView {
    object1(
        "mode"@,
        if mode < 0 {
            JsonView::Negative(mode as i64)
        } else {
            JsonView::Unsigned(mode as u64)
        },
    )
}

/// The document that streams a position.
pub open spec fn xpt_payload(position: JsonView, duration_ms: u32) -> JsonView {
    object3(
        "position"@,
        position,
        "duration"@,
        JsonView::Unsigned(
            if duration_ms < 10 {
                10u64
            } else {
                duration_ms as u64
            },
        ),
        "immediateResponse"@,
        JsonView::Bool(false),
    )
}

impl Default for HandyHttpClient {
    fn default() -> (res: Self)
        ensures
            res.base_url@ == "https://www.handyfeeling.com/api/handy/v2"@,
    {
        HandyHttpClient { base_url: "https://www.handyfeeling.com/api/handy/v2".to_owned() }
    }
}

impl HandyHttpClient {
    pub fn new() -> (res: Self)
        ensures
            res.base_url@ == "https://www.handyfeeling.com/api/handy/v2"@,
    {
        HandyHttpClient::default()
    }

    fn query(&self, path: &str, key: &str) -> (req: HttpRequest)
        ensures
            req@ == query_request(self.base_url@, path@, key@),
    {
        let mut req = HttpRequest::new(
            HttpMethod::Get,
            joined(self.base_url.as_str(), path),
            String::new(),
        );
        req.add_header("X-Connection-Key", trim(key));
        req.add_header("Accept", "application/json".to_owned());
        assert(req@ =~= query_request(self.base_url@, path@, key@));
        req
    }

    fn command(&self, path: &str, key: &str, payload: &serde_json::Value) -> (req: HttpRequest)
        ensures
            req@ == command_request(self.base_url@, path@, key@, contents(*payload)),
    {
        let mut req = HttpRequest::new(
            HttpMethod::Put,
            joined(self.base_url.as_str(), path),
            print(payload),
        );
        req.add_header("X-Connection-Key", trim(key));
        req.add_header("Content-Type", "application/json".to_owned());
        assert(req@ =~= command_request(self.base_url@, path@, key@, contents(*payload)));
        req
    }

    /// Asks if the device with the given connection key is online
    pub fn check_connected(&self, key: &str) -> (req: HttpRequest)
        ensures
            req@ == query_request(self.base_url@, "/connected"@, key@),
    {
        self.query("/connected", key)
    }

    /// Asks for hardware model and firmware version, once the device is known to be
    /// online; of one that is not nothing is asked.
    pub fn get_info(&self, key: &str, is_connected: bool) -> (req: Option<HttpRequest>)
        ensures
            match req {
                Some(r) => is_connected && r@ == query_request(self.base_url@, "/info"@, key@),
                None => !is_connected,
            },
    {
        if is_connected {
            Some(self.query("/info", key))
        } else {
            None
        }
    }

    /// Sets the operating mode (0: Off, 1: HAMP/manual, 2: HSSP/script, 3: HDSP/streaming)
    pub fn set_mode(&self, key: &str, mode: i32) -> (req: HttpRequest)
        ensures
            req@ == command_request(self.base_url@, "/mode"@, key@, mode_payload(mode)),
    {
        let payload = make_object1("mode", integer(mode as i64));
        self.command("/mode", key, &payload)
    }

    /// Streams a position target via HDSP `xpt` (percent position + time duration)
    pub fn send_hdsp_xpt(&self, key: &str, position: serde_json::Value, duration_ms: u32) -> (req:
        HttpRequest)
        ensures
            req@ == command_request(
                self.base_url@,
                "/hdsp/xpt"@,
                key@,
                xpt_payload(contents(position), duration_ms),
            ),
    {
        let duration: u32 = if duration_ms < 10 {
            10
        } else {
            duration_ms
        };
        let payload = make_object3(
            "position",
            position,
            "duration",
            integer(duration as i64),
            "immediateResponse",
            boolean(false),
        );
        self.command("/hdsp/xpt", key, &payload)
    }

    /// Stops the motion
    pub fn stop(&self, key: &str) -> (req: HttpRequest)
        ensures
            req@ == (RequestView {
                method: HttpMethod::Put,
                url: self.base_url@ + "/hamp/stop"@,
                headers: seq![("X-Connection-Key"@, trimmed(key@))],
                body: Seq::empty(),
            }),
    {
        let mut req = HttpRequest::new(
            HttpMethod::Put,
            joined(self.base_url.as_str(), "/hamp/stop"),
            String::new(),
        );
        req.add_header("X-Connection-Key", trim(key));
        assert(req@.headers =~= seq![("X-Connection-Key"@, trimmed(key@))]);
        req
    }
}

/// What a reply says of the connection: the member `connected`, or that there
/// is none where the reply does not say.
pub open spec fn connected_in(reply: JsonView) -> bool {
    match bool_in(member(reply, "connected"@)) {
        Some(b) => b,
        None => false,
    }
}

/// What a reply says of the device.
pub open spec fn info_in(reply: JsonView) -> StatusView {
    StatusView {
        is_connected: true,
        model: text_or_default(member(reply, "model"@), "The Handy"@),
        fw_version: text_or_default(member(reply, "fwVersion"@), "Unknown"@),
        hw_version: text_or_default(member(reply, "hwVersion"@), "Unknown"@),
        branch: text_or_default(member(reply, "branch"@), "release"@),
        mode: 3,
        last_ping_ms: 0,
    }
}

/// Whether the device is online, by the reply to the question; an error where
/// the reply is no JSON.
pub fn parse_connected(body: &str) -> (res: Result<bool, String>)
    ensures
        match json_of_text(body@) {
            Ok(reply) => res == Ok::<bool, String>(connected_in(reply)),
            Err(said) => res matches Err(e) && e@ == said,
        },
{
    match parse(body) {
        Ok(reply) => Ok(reply_connected(&reply)),
        Err(e) => Err(e),
    }
}

/// Whether the device is online, by a parsed reply.
pub fn reply_connected(reply: &serde_json::Value) -> (res: bool)
    ensures
        res == connected_in(contents(*reply)),
{
    match get(reply, "connected") {
        Some(v) => match as_bool(v) {
            Some(b) => b,
            None => false,
        },
        None => false,
    }
}

/// The status of a connected device, by the reply to the question for it; an
/// error where the reply is no JSON.
pub fn parse_info(body: &str) -> (res: Result<HandyStatus, String>)
    ensures
        match json_of_text(body@) {
            Ok(reply) => res matches Ok(status) && status@ == info_in(reply),
            Err(said) => res matches Err(e) && e@ == said,
        },
{
    match parse(body) {
        Ok(reply) => Ok(reply_info(&reply)),
        Err(e) => Err(e),
    }
}

/// The status of a connected device, by a parsed reply.
pub fn reply_info(reply: &serde_json::Value) -> (res: HandyStatus)
    ensures
        res@ == info_in(contents(*reply)),
{
    HandyStatus {
        is_connected: true,
        model: text_or(get(reply, "model"), "The Handy"),
        fw_version: text_or(get(reply, "fwVersion"), "Unknown"),
        hw_version: text_or(get(reply, "hwVersion"), "Unknown"),
        branch: text_or(get(reply, "branch"), "release"),
        mode: 3,
        last_ping_ms: 0,
    }
}

/// Commands for the worker that talks to the device; a position is given by the
/// bits of its percentage.
#[derive(Debug)]
pub enum HandyCommand {
    CheckConnection { key: String },
    SetMode { key: String, mode: i32 },
    SendPosition { key: String, position_pct: u32, duration_ms: u32 },
    Stop { key: String },
}

/// The contents of a [`HandyCommand`].
pub enum CommandView {
    CheckConnection { key: Seq<char> },
    SetMode { key: Seq<char>, mode: i32 },
    SendPosition { key: Seq<char>, position_pct: u32, duration_ms: u32 },
    Stop { key: Seq<char> },
}

impl View for HandyCommand {
    type V = CommandView;

    open spec fn view(&self) -> CommandView {
        match self {
            HandyCommand::CheckConnection { key } => CommandView::CheckConnection { key: key@ },
            HandyCommand::SetMode { key, mode } => CommandView::SetMode { key: key@, mode: *mode },
            HandyCommand::SendPosition { key, position_pct, duration_ms } => {
                CommandView::SendPosition {
                    key: key@,
                    position_pct: *position_pct,
                    duration_ms: *duration_ms,
                }
            },
            HandyCommand::Stop { key } => CommandView::Stop { key: key@ },
        }
    }
}

/// The contents of an optional command.
pub open spec fn command_view(c: Option<HandyCommand>) -> Option<CommandView> {
    match c {
        Some(command) => Some(command@),
        None => None,
    }
}

/// Events returned from the worker.
#[derive(Debug)]
pub enum HandyEvent {
    Connected { status: HandyStatus },
    Disconnected { reason: String },
    Error { message: String },
    PositionAck { position: u32 },
}

/// The contents of a [`HandyEvent`].
pub enum EventView {
    Connected { status: StatusView },
    Disconnected { reason: Seq<char> },
    Error { message: Seq<char> },
    PositionAck { position: u32 },
}

impl View for HandyEvent {
    type V = EventView;

    open spec fn view(&self) -> EventView {
        match self {
            HandyEvent::Connected { status } => EventView::Connected { status: status@ },
            HandyEvent::Disconnected { reason } => EventView::Disconnected { reason: reason@ },
            HandyEvent::Error { message } => EventView::Error { message: message@ },
            HandyEvent::PositionAck { position } => EventView::PositionAck { position: *position },
        }
    }
}

/// What a worker that holds a position command does with the next command in
/// its queue.
#[derive(Debug, Clone, Copy, PartialEq, Eq, Structural)]
pub enum DrainStep {
    /// The newer position replaces the held one, and the next command is looked at
    Replace,
    /// The newer command is carried out instead, and the interruption is reported
    Interrupt,
}

/// Drains newer position commands to keep latency minimal: a newer position
/// replaces an older one; any other command interrupts.
pub fn drain_step(newer: &HandyCommand) -> (step: DrainStep)
    ensures
        step == (if *newer is SendPosition {
            DrainStep::Replace
        } else {
            DrainStep::Interrupt
        }),
{
    match newer {
        HandyCommand::SendPosition { .. } => DrainStep::Replace,
        _ => DrainStep::Interrupt,
    }
}

/// Turns the outcome of a connection check into an event, and says whether the
/// device is to be put into streaming mode.
pub fn connection_outcome(outcome: Result<HandyStatus, String>, ping_ms: u64) -> (res: (
    HandyEvent,
    bool,
))
    ensures
        match outcome {
            Ok(status) => if status.is_connected {
                res.0@ == (EventView::Connected {
                    status: StatusView { last_ping_ms: ping_ms, ..status@ },
                }) && res.1
            } else {
                res.0@ == (EventView::Disconnected {
                    reason: "Device reported offline or invalid key"@,
                }) && !res.1
            },
            Err(e) => res.0@ == (EventView::Error {
                message: "Connection check failed: "@ + e@,
            }) && !res.1,
        },
{
    match outcome {
        Ok(status) => {
            let mut status: HandyStatus = status;
            status.last_ping_ms = ping_ms;
            if status.is_connected {
                (HandyEvent::Connected { status }, true)
            } else {
                (
                    HandyEvent::Disconnected {
                        reason: "Device reported offline or invalid key".to_owned(),
                    },
                    false,
                )
            }
        },
        Err(e) => (
            HandyEvent::Error { message: joined("Connection check failed: ", e.as_str()) },
            false,
        ),
    }
}

/// The state of the link to the device.
#[derive(Debug)]
pub struct HandyDispatcher {
    pub status: HandyStatus,
    pub last_error: Option<String>,
    pub is_connecting: bool,
}

/// `ms` brought into `20..=500`.
pub open spec fn stream_duration(ms: u32) -> u32 {
    if ms < 20 {
        20
    } else if ms > 500 {
        500
    } else {
        ms
    }
}

/// A position is streamed: the link is enabled and up, the key is not blank,
/// and enough time has passed or the position has moved enough.
pub open spec fn is_streamed(
    enabled: bool,
    connected: bool,
    key: Seq<char>,
    elapsed_ms: int,
    moved_little: bool,
) -> bool {
    enabled && connected && trimmed(key).len() > 0 && !(elapsed_ms < 65 && moved_little)
}

impl HandyDispatcher {
    pub fn new() -> (res: Self)
        ensures
            res.status@ == offline(),
            res.last_error is None,
            !res.is_connecting,
    {
        HandyDispatcher { status: HandyStatus::default(), last_error: None, is_connecting: false }
    }

    /// Begins a connection test and info retrieval; a blank key is an error.
    pub fn connect(&mut self, key: &str) -> (command: Option<HandyCommand>)
        ensures
            final(self).status == old(self).status,
            trimmed(key@).len() == 0 ==> {
                &&& command is None
                &&& text_of(final(self).last_error) == Some("Connection key cannot be empty"@)
                &&& final(self).is_connecting == old(self).is_connecting
            },
            trimmed(key@).len() > 0 ==> {
                &&& command_view(command) == Some(
                    CommandView::CheckConnection { key: trimmed(key@) },
                )
                &&& final(self).last_error is None
                &&& final(self).is_connecting
            },
    {
        let key: String = trim(key);
        if key.as_str().is_empty() {
            self.last_error = Some("Connection key cannot be empty".to_owned());
            return None;
        }
        self.is_connecting = true;
        self.last_error = None;
        Some(HandyCommand::CheckConnection { key })
    }

    /// Disconnect and signal stop to device
    pub fn disconnect(&mut self, key: &str) -> (command: HandyCommand)
        ensures
            command@ == (CommandView::Stop { key: trimmed(key@) }),
            final(self).status@ == (StatusView { is_connected: false, ..old(self).status@ }),
            !final(self).is_connecting,
            final(self).last_error == old(self).last_error,
    {
        self.status.is_connected = false;
        self.is_connecting = false;
        HandyCommand::Stop { key: trim(key) }
    }

    /// Set operating mode on connected device (0: Off, 1: HAMP, 2: HSSP, 3: HDSP)
    pub fn set_mode(&self, key: &str, mode: i32) -> (command: HandyCommand)
        ensures
            command@ == (CommandView::SetMode { key: trimmed(key@), mode }),
    {
        HandyCommand::SetMode { key: trim(key), mode }
    }

    /// Stream a position, already mapped into the user's range, respecting the
    /// rate limit: within 65 ms of the last one only a position that moved
    /// enough is sent.
    pub fn stream_position(
        &self,
        key: &str,
        enabled: bool,
        elapsed_ms: u128,
        moved_little: bool,
        mapped_pos: u32,
        duration_ms: u32,
    ) -> (command: Option<HandyCommand>)
        ensures
            command_view(command) == (if is_streamed(
                enabled,
                self.status.is_connected,
                key@,
                elapsed_ms as int,
                moved_little,
            ) {
                Some(
                    CommandView::SendPosition {
                        key: trimmed(key@),
                        position_pct: mapped_pos,
                        duration_ms: stream_duration(duration_ms),
                    },
                )
            } else {
                None
            }),
    {
        let key: String = trim(key);
        if !enabled || !self.status.is_connected || key.as_str().is_empty() {
            return None;
        }
        if elapsed_ms < 65 && moved_little {
            return None;
        }
        let duration: u32 = if duration_ms < 20 {
            20
        } else if duration_ms > 500 {
            500
        } else {
            duration_ms
        };
        Some(HandyCommand::SendPosition { key, position_pct: mapped_pos, duration_ms: duration })
    }

    /// Takes in an event from the worker.
    pub fn apply_event(&mut self, event: HandyEvent)
        ensures
            match event {
                HandyEvent::Connected { status } => {
                    &&& final(self).status == status
                    &&& final(self).last_error is None
                    &&& !final(self).is_connecting
                },
                HandyEvent::Disconnected { reason } => {
                    &&& final(self).status@ == (StatusView {
                        is_connected: false,
                        ..old(self).status@
                    })
                    &&& final(self).last_error == Some(reason)
                    &&& !final(self).is_connecting
                },
                HandyEvent::Error { message } => {
                    &&& final(self).status == old(self).status
                    &&& final(self).last_error == Some(message)
                    &&& !final(self).is_connecting
                },
                HandyEvent::PositionAck { .. } => *final(self) == *old(self),
            },
    {
        match event {
            HandyEvent::Connected { status } => {
                self.status = status;
                self.is_connecting = false;
                self.last_error = None;
            },
            HandyEvent::Disconnected { reason } => {
                self.status.is_connected = false;
                self.is_connecting = false;
                self.last_error = Some(reason);
            },
            HandyEvent::Error { message } => {
                self.last_error = Some(message);
                self.is_connecting = false;
            },
            HandyEvent::PositionAck { .. } => {},
        }
    }
}

/// A position is streamed exactly where the link is enabled and up, the key holds something
/// but white space, and 65 ms have passed since the last one or the position has moved.
pub proof fn lemma_streamed(
    enabled: bool,
    connected: bool,
    key: Seq<char>,
    elapsed_ms: int,
    moved_little: bool,
)
    ensures
        is_streamed(enabled, connected, key, elapsed_ms, moved_little) <==> enabled && connected && (
        exists|i: int| 0 <= i < key.len() && !is_white(#[trigger] key[i])) && (elapsed_ms >= 65
            || !moved_little),
{
    let start = lemma_trimmed(key);
    if trimmed(key).len() > 0 {
        assert(!is_white(key[start]));
    }
}

/// A stream's duration is kept as asked from 20 to 500 ms, and brought to the nearer end
/// outside.
pub proof fn lemma_stream_duration(ms: u32)
    ensures
        20 <= stream_duration(ms) <= 500,
        20 <= ms <= 500 ==> stream_duration(ms) == ms,
        ms < 20 ==> stream_duration(ms) == 20,
        ms > 500 ==> stream_duration(ms) == 500,
{
}

/// A reply that names the device and its versions is taken at its word; a device that has
/// replied is connected and in the mode for direct positions.
pub proof fn lemma_info_of_reply(reply: JsonView)
    ensures
        ({
            let info = info_in(reply);
            &&& info.is_connected
            &&& info.mode == 3
            &&& info.last_ping_ms == 0
            &&& (member(reply, "model"@) matches Some(JsonView::Text(t)) ==> info.model == t)
            &&& (member(reply, "fwVersion"@) matches Some(JsonView::Text(t)) ==> info.fw_version
                == t)
            &&& (member(reply, "hwVersion"@) matches Some(JsonView::Text(t)) ==> info.hw_version
                == t)
            &&& (member(reply, "branch"@) matches Some(JsonView::Text(t)) ==> info.branch == t)
            &&& member(reply, "model"@) is None ==> info.model == "The Handy"@
            &&& member(reply, "fwVersion"@) is None ==> info.fw_version == "Unknown"@
            &&& member(reply, "hwVersion"@) is None ==> info.hw_version == "Unknown"@
            &&& member(reply, "branch"@) is None ==> info.branch == "release"@
        }),
        connected_in(reply) <==> member(reply, "connected"@) == Some(JsonView::Bool(true)),
{
}

} // verus!
