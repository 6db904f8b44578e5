//! The Buttplug v3 protocol: messages to an Intiface server, the events in its
//! replies, and the devices it has announced.
use crate::json::{
    as_array, as_str, as_u64, contents, contents_seq, copy, get, integer, items_in, json_of_text,
    make_array1, make_object1, make_object3, member, member_of, object1, object3, parse, print,
    text, text_in, text_of_json, text_or, text_or_default, unsigned_in, JsonView,
};
use vstd::prelude::*;
use vstd::string::*;

verus! {

/// Configuration for the Buttplug / Intiface client connection
#[derive(Debug)]
pub struct ButtplugConfig {
    pub server_url: String,
    pub client_name: String,
}

impl Default for ButtplugConfig {
    fn default() -> (res: Self)
        ensures
            res.server_url@ == "ws://127.0.0.1:12345"@,
            res.client_name@ == "Pulsar Kinematic Workstation"@,
    {
        ButtplugConfig {
            server_url: "ws://127.0.0.1:12345".to_owned(),
            client_name: "Pulsar Kinematic Workstation".to_owned(),
        }
    }
}

/// Discovered device connected via Intiface Central
#[derive(Debug, PartialEq)]
pub struct ButtplugDevice {
    pub index: u32,
    pub name: String,
    pub can_linear: bool,
    pub can_vibrate: bool,
}

/// The contents of a [`ButtplugDevice`].
#[verifier::ext_equal]
pub struct DeviceView {
    pub index: u32,
    pub name: Seq<char>,
    pub can_linear: bool,
    pub can_vibrate: bool,
}

impl View for ButtplugDevice {
    type V = DeviceView;

    open spec fn view(&self) -> DeviceView {
        DeviceView {
            index: self.index,
            name: self.name@,
            can_linear: self.can_linear,
            can_vibrate: self.can_vibrate,
        }
    }
}

impl Clone for ButtplugDevice {
    fn clone(&self) -> (res: Self)
        ensures
            res@ == self@,
    {
        ButtplugDevice {
            index: self.index,
            name: self.name.clone(),
            can_linear: self.can_linear,
            can_vibrate: self.can_vibrate,
        }
    }
}

/// Event notification emitted by the Buttplug client
#[derive(Debug)]
pub enum ButtplugEvent {
    Connected { server_name: String },
    Disconnected,
    DeviceAdded(ButtplugDevice),
    DeviceRemoved { index: u32 },
    Error(String),
}

/// The contents of a [`ButtplugEvent`].
pub enum PlugEventView {
    Connected { server_name: Seq<char> },
    Disconnected,
    DeviceAdded(DeviceView),
    DeviceRemoved { index: u32 },
    Error(Seq<char>),
}

impl View for ButtplugEvent {
    type V = PlugEventView;

    open spec fn view(&self) -> PlugEventView {
        match self {
            ButtplugEvent::Connected { server_name } => PlugEventView::Connected {
                server_name: server_name@,
            },
            ButtplugEvent::Disconnected => PlugEventView::Disconnected,
            ButtplugEvent::DeviceAdded(d) => PlugEventView::DeviceAdded(d@),
            ButtplugEvent::DeviceRemoved { index } => PlugEventView::DeviceRemoved {
                index: *index,
            },
            ButtplugEvent::Error(message) => PlugEventView::Error(message@),
        }
    }
}

/// A message: an array whose only element is an object that names the kind.
pub open spec fn message(kind: Seq<char>, body: JsonView) -> JsonView {
    JsonView::Array(seq![object1(kind, body)])
}

/// The handshake.
pub open spec fn server_info_message(id: u32, client_name: Seq<char>) -> JsonView {
    message(
        "RequestServerInfo"@,
        object3(
            "Id"@,
            JsonView::Unsigned(id as u64),
            "ClientName"@,
            JsonView::Text(client_name),
            "MessageVersion"@,
            JsonView::Unsigned(3),
        ),
    )
}

/// A message that carries nothing but its number.
pub open spec fn bare_message(kind: Seq<char>, id: u32) -> JsonView {
    message(kind, object1("Id"@, JsonView::Unsigned(id as u64)))
}

/// A command to one device, with a single entry.
pub open spec fn device_message(
    kind: Seq<char>,
    id: u32,
    device_index: u32,
    list: Seq<char>,
    entry: JsonView,
) -> JsonView {
    message(
        kind,
        object3(
            "Id"@,
            JsonView::Unsigned(id as u64),
            "DeviceIndex"@,
            JsonView::Unsigned(device_index as u64),
            list,
            JsonView::Array(seq![entry]),
        ),
    )
}

/// A move of the first actuator.
pub open spec fn linear_entry(duration_ms: u32, position: JsonView) -> JsonView {
    object3(
        "Index"@,
        JsonView::Unsigned(0),
        "Duration"@,
        JsonView::Unsigned(duration_ms as u64),
        "Position"@,
        position,
    )
}

/// A vibration of the first actuator.
pub open spec fn vibrate_entry(speed: JsonView) -> JsonView {
    object3(
        "Index"@,
        JsonView::Unsigned(0),
        "Scalar"@,
        speed,
        "ActuatorType"@,
        JsonView::Text("Vibrate"@),
    )
}

/// The device that an object describes, if it has an index and a name.
pub open spec fn device_in(dev: JsonView) -> Option<DeviceView> {
    match (unsigned_in(member(dev, "DeviceIndex"@)), text_in(member(dev, "DeviceName"@))) {
        (Some(index), Some(name)) => Some(
            DeviceView {
                index: (index % 0x1_0000_0000) as u32,
                name,
                can_linear: member_of(member(dev, "DeviceMessages"@), "LinearCmd"@) is Some,
                can_vibrate: member_of(member(dev, "DeviceMessages"@), "ScalarCmd"@) is Some
                    || member_of(member(dev, "DeviceMessages"@), "VibrateCmd"@) is Some,
            },
        ),
        _ => None,
    }
}

/// The event that a device's announcement is, if it describes one.
pub open spec fn added_events(dev: JsonView) -> Seq<PlugEventView> {
    match device_in(dev) {
        Some(d) => seq![PlugEventView::DeviceAdded(d)],
        None => Seq::empty(),
    }
}

/// The events of the first `n` devices of a list.
pub open spec fn list_events(devices: Seq<JsonView>, n: nat) -> Seq<PlugEventView>
    decreases n,
{
    if n == 0 {
        Seq::empty()
    } else {
        list_events(devices, (n - 1) as nat) + added_events(devices[n - 1])
    }
}

/// The events in one message.
pub open spec fn message_events(item: JsonView) -> Seq<PlugEventView> {
    if let Some(info) = member(item, "ServerInfo"@) {
        seq![
            PlugEventView::Connected {
                server_name: text_or_default(member(info, "ServerName"@), "Intiface"@),
            },
        ]
    } else if let Some(list) = member(item, "DeviceList"@) {
        match items_in(member(list, "Devices"@)) {
            Some(devices) => list_events(devices, devices.len()),
            None => Seq::empty(),
        }
    } else if let Some(dev) = member(item, "DeviceAdded"@) {
        added_events(dev)
    } else if let Some(dev) = member(item, "DeviceRemoved"@) {
        match unsigned_in(member(dev, "DeviceIndex"@)) {
            Some(index) => seq![
                PlugEventView::DeviceRemoved { index: (index % 0x1_0000_0000) as u32 },
            ],
            None => Seq::empty(),
        }
    } else if let Some(err) = member(item, "Error"@) {
        seq![
            PlugEventView::Error(
                text_or_default(member(err, "ErrorMessage"@), "Unknown error"@),
            ),
        ]
    } else {
        Seq::empty()
    }
}

/// The events in the first `n` messages.
pub open spec fn events_below(items: Seq<JsonView>, n: nat) -> Seq<PlugEventView>
    decreases n,
{
    if n == 0 {
        Seq::empty()
    } else {
        events_below(items, (n - 1) as nat) + message_events(items[n - 1])
    }
}

/// The events in a document: those of its messages, where it is an array.
pub open spec fn events_in(doc: Option<JsonView>) -> Seq<PlugEventView> {
    match items_in(doc) {
        Some(items) => events_below(items, items.len()),
        None => Seq::empty(),
    }
}

/// The contents of a list of events.
pub open spec fn event_views(s: Seq<ButtplugEvent>) -> Seq<PlugEventView> {
    s.map_values(|e: ButtplugEvent| e@)
}

fn push_event(events: &mut Vec<ButtplugEvent>, event: ButtplugEvent)
    ensures
        event_views(final(events)@) == event_views(old(events)@) + seq![event@],
{
    events.push(event);
    assert(event_views(events@) =~= event_views(old(events)@) + seq![event@]);
}

/// Message payload formatter for Buttplug.io v3 protocol
pub struct ButtplugProtocol;

impl ButtplugProtocol {
    fn wrap(kind: &str, body: serde_json::Value) -> (res: String)
        ensures
            res@ == text_of_json(message(kind@, contents(body))),
    {
        let doc = make_array1(make_object1(kind, body));
        print(&doc)
    }

    /// Format RequestServerInfo handshake message
    pub fn format_server_info(id: u32, client_name: &str) -> (res: String)
        ensures
            res@ == text_of_json(server_info_message(id, client_name@)),
    {
        let body = make_object3(
            "Id",
            integer(id as i64),
            "ClientName",
            text(client_name.to_owned()),
            "MessageVersion",
            integer(3),
        );
        ButtplugProtocol::wrap("RequestServerInfo", body)
    }

    /// Format StartScanning message
    pub fn format_start_scanning(id: u32) -> (res: String)
        ensures
            res@ == text_of_json(bare_message("StartScanning"@, id)),
    {
        ButtplugProtocol::wrap("StartScanning", make_object1("Id", integer(id as i64)))
    }

    /// Format RequestDeviceList message
    pub fn format_request_device_list(id: u32) -> (res: String)
        ensures
            res@ == text_of_json(bare_message("RequestDeviceList"@, id)),
    {
        ButtplugProtocol::wrap("RequestDeviceList", make_object1("Id", integer(id as i64)))
    }

    /// Format LinearCmd message for stroking toys. `position` is a number of
    /// `[0, 1]`.
    pub fn format_linear_cmd(
        id: u32,
        device_index: u32,
        duration_ms: u32,
        position: serde_json::Value,
    ) -> (res: String)
        ensures
            res@ == text_of_json(
                device_message(
                    "LinearCmd"@,
                    id,
                    device_index,
                    "Vectors"@,
                    linear_entry(duration_ms, contents(position)),
                ),
            ),
    {
        let entry = make_object3(
            "Index",
            integer(0),
            "Duration",
            integer(duration_ms as i64),
            "Position",
            position,
        );
        let body = make_object3(
            "Id",
            integer(id as i64),
            "DeviceIndex",
            integer(device_index as i64),
            "Vectors",
            make_array1(entry),
        );
        ButtplugProtocol::wrap("LinearCmd", body)
    }

    /// Format ScalarCmd / VibrateCmd message. `speed` is a number of `[0, 1]`.
    pub fn format_vibrate_cmd(id: u32, device_index: u32, speed: serde_json::Value) -> (res: String)
        ensures
            res@ == text_of_json(
                device_message(
                    "ScalarCmd"@,
                    id,
                    device_index,
                    "Scalars"@,
                    vibrate_entry(contents(speed)),
                ),
            ),
    {
        let entry = make_object3(
            "Index",
            integer(0),
            "Scalar",
            speed,
            "ActuatorType",
            text("Vibrate".to_owned()),
        );
        let body = make_object3(
            "Id",
            integer(id as i64),
            "DeviceIndex",
            integer(device_index as i64),
            "Scalars",
            make_array1(entry),
        );
        ButtplugProtocol::wrap("ScalarCmd", body)
    }

    /// Parse incoming message array and extract known event types
    pub fn parse_messages(json_str: &str) -> (events: Vec<ButtplugEvent>)
        ensures
            event_views(events@) == (match json_of_text(json_str@) {
                Ok(doc) => events_in(Some(doc)),
                Err(_) => Seq::empty(),
            }),
    {
        match parse(json_str) {
            Ok(doc) => ButtplugProtocol::document_events(&doc),
            Err(_) => {
                let events: Vec<ButtplugEvent> = Vec::new();
                assert(event_views(events@) =~= Seq::empty());
                events
            },
        }
    }

    /// The known events in a parsed message array.
    pub fn document_events(doc: &serde_json::Value) -> (events: Vec<ButtplugEvent>)
        ensures
            event_views(events@) == events_in(Some(contents(*doc))),
    {
        let mut events: Vec<ButtplugEvent> = Vec::new();
        assert(event_views(events@) =~= Seq::empty());
        let items: &Vec<serde_json::Value> = match as_array(doc) {
            Some(items) => items,
            None => return events,
        };
        let ghost views = contents_seq(items@);
        let mut i: usize = 0;
        while i < items.len()
            invariant
                i <= items.len(),
                views == contents_seq(items@),
                event_views(events@) == events_below(views, i as nat),
            decreases items.len() - i,
        {
            let item: &serde_json::Value = &items[i];
            assert(contents(*item) == views[i as int]);
            ButtplugProtocol::item_events(item, &mut events);
            i += 1;
        }
        events
    }

    fn item_events(item: &serde_json::Value, events: &mut Vec<ButtplugEvent>)
        ensures
            event_views(final(events)@) == event_views(old(events)@) + message_events(
                contents(*item),
            ),
    {
        if let Some(info) = get(item, "ServerInfo") {
            let name: String = text_or(get(info, "ServerName"), "Intiface");
            push_event(events, ButtplugEvent::Connected { server_name: name });
        } else if let Some(list) = get(item, "DeviceList") {
            if let Some(found) = get(list, "Devices") {
                if let Some(devices) = as_array(found) {
                    ButtplugProtocol::device_events(devices, events);
                    return;
                }
            }
            assert(event_views(events@) =~= event_views(old(events)@) + Seq::empty());
        } else if let Some(dev) = get(item, "DeviceAdded") {
            match ButtplugProtocol::parse_device(dev) {
                Some(parsed) => push_event(events, ButtplugEvent::DeviceAdded(parsed)),
                None => {
                    assert(event_views(events@) =~= event_views(old(events)@) + Seq::empty());
                },
            }
        } else if let Some(dev) = get(item, "DeviceRemoved") {
            if let Some(found) = get(dev, "DeviceIndex") {
                if let Some(index) = as_u64(found) {
                    push_event(
                        events,
                        ButtplugEvent::DeviceRemoved { index: (index % 0x1_0000_0000) as u32 },
                    );
                    return;
                }
            }
            assert(event_views(events@) =~= event_views(old(events)@) + Seq::empty());
        } else if let Some(err) = get(item, "Error") {
            let msg: String = text_or(get(err, "ErrorMessage"), "Unknown error");
            push_event(events, ButtplugEvent::Error(msg));
        } else {
            assert(event_views(events@) =~= event_views(old(events)@) + Seq::empty());
        }
    }

    fn device_events(devices: &Vec<serde_json::Value>, events: &mut Vec<ButtplugEvent>)
        ensures
            event_views(final(events)@) == event_views(old(events)@) + list_events(
                contents_seq(devices@),
                devices@.len(),
            ),
    {
        let ghost views = contents_seq(devices@);
        let ghost before = event_views(events@);
        let mut i: usize = 0;
        assert(before =~= before + list_events(views, 0));
        while i < devices.len()
            invariant
                i <= devices.len(),
                views == contents_seq(devices@),
                event_views(events@) == before + list_events(views, i as nat),
            decreases devices.len() - i,
        {
            let dev: &serde_json::Value = &devices[i];
            assert(contents(*dev) == views[i as int]);
            if let Some(parsed) = ButtplugProtocol::parse_device(dev) {
                push_event(events, ButtplugEvent::DeviceAdded(parsed));
            }
            i += 1;
            assert(event_views(events@) =~= before + list_events(views, i as nat));
        }
    }

    /// The device that an object describes, if it has an index and a name.
    pub fn parse_device(dev: &serde_json::Value) -> (res: Option<ButtplugDevice>)
        ensures
            res is Some <==> device_in(contents(*dev)) is Some,
            res matches Some(d) ==> Some(d@) == device_in(contents(*dev)),
    {
        let index: u64 = match get(dev, "DeviceIndex") {
            Some(v) => match as_u64(v) {
                Some(n) => n,
                None => return None,
            },
            None => return None,
        };
        let name: String = match get(dev, "DeviceName") {
            Some(v) => match as_str(v) {
                Some(s) => s.to_owned(),
                None => return None,
            },
            None => return None,
        };
        let mut can_linear: bool = false;
        let mut can_vibrate: bool = false;
        if let Some(messages) = get(dev, "DeviceMessages") {
            if get(messages, "LinearCmd").is_some() {
                can_linear = true;
            }
            if get(messages, "ScalarCmd").is_some() || get(messages, "VibrateCmd").is_some() {
                can_vibrate = true;
            }
        }
        Some(
            ButtplugDevice { index: (index % 0x1_0000_0000) as u32, name, can_linear, can_vibrate },
        )
    }
}

/// The devices of a list by their indices.
pub open spec fn devices_map(s: Seq<ButtplugDevice>) -> Map<u32, DeviceView>
    decreases s.len(),
{
    if s.len() == 0 {
        Map::empty()
    } else {
        devices_map(s.drop_last()).insert(s.last().index, s.last()@)
    }
}

/// Indices strictly increase along the list.
pub open spec fn by_index(s: Seq<ButtplugDevice>) -> bool {
    forall|i: int, j: int| 0 <= i < j < s.len() ==> s[i].index < s[j].index
}

proof fn lemma_devices_map(s: Seq<ButtplugDevice>)
    requires
        by_index(s),
    ensures
        forall|k: int|
            0 <= k < s.len() ==> devices_map(s).dom().contains((#[trigger] s[k]).index)
                && devices_map(s)[s[k].index] == s[k]@,
        forall|index: u32| #[trigger]
            devices_map(s).dom().contains(index) ==> exists|k: int|
                0 <= k < s.len() && (#[trigger] s[k]).index == index,
    decreases s.len(),
{
    if s.len() > 0 {
        let d = s.drop_last();
        lemma_devices_map(d);
        assert forall|k: int| 0 <= k < s.len() implies devices_map(s).dom().contains(
            (#[trigger] s[k]).index,
        ) && devices_map(s)[s[k].index] == s[k]@ by {
            if k < d.len() {
                assert(d[k] == s[k]);
                assert(s[k].index < s[s.len() - 1].index);
            }
        }
        assert forall|index: u32| #[trigger] devices_map(s).dom().contains(index) implies exists|
            k: int,
        | 0 <= k < s.len() && (#[trigger] s[k]).index == index by {
            if index == s.last().index {
                assert(s[s.len() - 1].index == index);
            } else {
                assert(devices_map(d).dom().contains(index));
                let k = choose|k: int| 0 <= k < d.len() && (#[trigger] d[k]).index == index;
                assert(s[k].index == index);
            }
        }
    }
}

proof fn lemma_map_insert(s: Seq<ButtplugDevice>, pos: int, d: ButtplugDevice)
    requires
        0 <= pos <= s.len(),
        forall|k: int| 0 <= k < s.len() ==> (#[trigger] s[k]).index != d.index,
    ensures
        devices_map(s.insert(pos, d)) == devices_map(s).insert(d.index, d@),
    decreases s.len(),
{
    let t = s.insert(pos, d);
    if pos == s.len() {
        assert(t.drop_last() =~= s);
    } else {
        let p = s.drop_last();
        assert(t.drop_last() =~= p.insert(pos, d));
        assert(s[s.len() - 1].index != d.index);
        lemma_map_insert(p, pos, d);
        assert(devices_map(t) =~= devices_map(s).insert(d.index, d@));
    }
}

proof fn lemma_map_update(s: Seq<ButtplugDevice>, pos: int, d: ButtplugDevice)
    requires
        by_index(s),
        0 <= pos < s.len(),
        s[pos].index == d.index,
    ensures
        devices_map(s.update(pos, d)) == devices_map(s).insert(d.index, d@),
    decreases s.len(),
{
    let t = s.update(pos, d);
    let p = s.drop_last();
    if pos == s.len() - 1 {
        assert(t.drop_last() =~= p);
        assert(devices_map(t) =~= devices_map(s).insert(d.index, d@));
    } else {
        assert(t.drop_last() =~= p.update(pos, d));
        assert(s[pos].index < s[s.len() - 1].index);
        lemma_map_update(p, pos, d);
        assert(devices_map(t) =~= devices_map(s).insert(d.index, d@));
    }
}

proof fn lemma_map_remove(s: Seq<ButtplugDevice>, pos: int)
    requires
        by_index(s),
        0 <= pos < s.len(),
    ensures
        devices_map(s.remove(pos)) == devices_map(s).remove(s[pos].index),
    decreases s.len(),
{
    let t = s.remove(pos);
    let p = s.drop_last();
    if pos == s.len() - 1 {
        assert(t =~= p);
        lemma_devices_map(p);
        assert(!devices_map(p).dom().contains(s[pos].index)) by {
            if devices_map(p).dom().contains(s[pos].index) {
                let k = choose|k: int| 0 <= k < p.len() && (#[trigger] p[k]).index == s[pos].index;
                assert(s[k].index < s[pos].index);
            }
        }
        assert(devices_map(t) =~= devices_map(s).remove(s[pos].index));
    } else {
        assert(t.drop_last() =~= p.remove(pos));
        assert(s[pos].index < s[s.len() - 1].index);
        lemma_map_remove(p, pos);
        assert(p[pos] == s[pos]);
        assert(devices_map(t) =~= devices_map(s).remove(s[pos].index));
    }
}

/// A device that is to be stopped, and how.
#[derive(Debug, Clone, Copy, PartialEq, Eq, Structural)]
pub struct StopTarget {
    pub index: u32,
    /// By a slow move to the start; otherwise by ending its vibration
    pub linear: bool,
}

/// A device that can move or vibrate.
pub open spec fn is_stoppable(d: DeviceView) -> bool {
    d.can_linear || d.can_vibrate
}

/// The state of a link to an Intiface server.
#[derive(Debug)]
pub struct ButtplugDispatcher {
    devices: Vec<ButtplugDevice>,
    msg_counter: u32,
}

impl View for ButtplugDispatcher {
    type V = Map<u32, DeviceView>;

    closed spec fn view(&self) -> Map<u32, DeviceView> {
        devices_map(self.devices@)
    }
}

impl ButtplugDispatcher {
    /// Each device is listed once, in the order of the indices.
    pub closed spec fn wf(&self) -> bool {
        by_index(self.devices@)
    }

    /// The number of the next message.
    pub closed spec fn next_number(&self) -> u32 {
        self.msg_counter
    }

    /// No device known, messages numbered from one.
    pub fn new() -> (res: Self)
        ensures
            res.wf(),
            res@ == Map::<u32, DeviceView>::empty(),
            res.next_number() == 1,
    {
        ButtplugDispatcher { devices: Vec::new(), msg_counter: 1 }
    }

    /// Takes a message number; they start over after the largest.
    pub fn take_number(&mut self) -> (id: u32)
        requires
            old(self).wf(),
        ensures
            final(self).wf(),
            final(self)@ == old(self)@,
            id == old(self).next_number(),
            final(self).next_number() == number_after(id),
    {
        let id: u32 = self.msg_counter;
        self.msg_counter = if id == u32::MAX {
            0
        } else {
            id + 1
        };
        id
    }

    /// Forgets every device.
    pub fn disconnect(&mut self)
        ensures
            final(self).wf(),
            final(self)@ == Map::<u32, DeviceView>::empty(),
            final(self).next_number() == old(self).next_number(),
    {
        self.devices.clear();
    }

    fn position_of(&self, index: u32) -> (pos: usize)
        requires
            self.wf(),
        ensures
            pos <= self.devices.len(),
            forall|k: int| 0 <= k < pos ==> (#[trigger] self.devices@[k]).index < index,
            forall|k: int|
                pos <= k < self.devices.len() ==> (#[trigger] self.devices@[k]).index >= index,
    {
        let mut pos: usize = 0;
        while pos < self.devices.len() && self.devices[pos].index < index
            invariant
                self.wf(),
                pos <= self.devices.len(),
                forall|k: int| 0 <= k < pos ==> (#[trigger] self.devices@[k]).index < index,
            decreases self.devices.len() - pos,
        {
            pos += 1;
        }
        proof {
            if pos < self.devices.len() {
                assert(self.devices@[pos as int].index >= index);
            }
        }
        pos
    }

    /// Takes in an event: an announced device becomes known, in place of one
    /// with its index, and a removed one is forgotten.
    pub fn apply_event(&mut self, event: &ButtplugEvent)
        requires
            old(self).wf(),
        ensures
            final(self).wf(),
            final(self).next_number() == old(self).next_number(),
            final(self)@ == (match event@ {
                PlugEventView::DeviceAdded(d) => old(self)@.insert(d.index, d),
                PlugEventView::DeviceRemoved { index } => old(self)@.remove(index),
                _ => old(self)@,
            }),
    {
        match event {
            ButtplugEvent::DeviceAdded(dev) => {
                let pos: usize = self.position_of(dev.index);
                let entry: ButtplugDevice = dev.clone();
                if pos < self.devices.len() && self.devices[pos].index == dev.index {
                    proof {
                        lemma_map_update(self.devices@, pos as int, entry);
                    }
                    self.devices.set(pos, entry);
                } else {
                    proof {
                        assert forall|k: int| 0 <= k < self.devices@.len() implies (
                        #[trigger] self.devices@[k]).index != entry.index by {
                            if k > pos {
                                assert(self.devices@[pos as int].index < self.devices@[k].index);
                            }
                        }
                        lemma_map_insert(self.devices@, pos as int, entry);
                    }
                    self.devices.insert(pos, entry);
                }
            },
            ButtplugEvent::DeviceRemoved { index } => {
                let pos: usize = self.position_of(*index);
                if pos < self.devices.len() && self.devices[pos].index == *index {
                    proof {
                        lemma_map_remove(self.devices@, pos as int);
                    }
                    let _ = self.devices.remove(pos);
                } else {
                    proof {
                        lemma_devices_map(self.devices@);
                        assert(!self@.dom().contains(*index)) by {
                            if self@.dom().contains(*index) {
                                let k = choose|k: int|
                                    0 <= k < self.devices@.len() && (
                                    #[trigger] self.devices@[k]).index == *index;
                                assert(k >= pos);
                                if k > pos {
                                    assert(self.devices@[pos as int].index
                                        < self.devices@[k].index);
                                }
                            }
                        }
                        assert(self@.remove(*index) =~= self@);
                    }
                }
            },
            _ => {},
        }
    }

    /// The devices that a stroke, or a vibration, is sent to: all that are known
    /// to be able to, in the order of their indices.
    pub fn targets(&self, linear: bool) -> (res: Vec<u32>)
        requires
            self.wf(),
        ensures
            forall|i: int, j: int| 0 <= i < j < res.len() ==> res@[i] < res@[j],
            forall|index: u32| #[trigger]
                res@.contains(index) <==> self@.dom().contains(index) && can_do(self@[index], linear),
    {
        let mut res: Vec<u32> = Vec::new();
        let mut k: usize = 0;
        let ghost s = self.devices@;
        proof {
            lemma_devices_map(s);
        }
        while k < self.devices.len()
            invariant
                k <= self.devices.len(),
                s == self.devices@,
                by_index(s),
                forall|i: int, j: int| 0 <= i < j < res.len() ==> res@[i] < res@[j],
                forall|i: int|
                    0 <= i < res.len() ==> exists|m: int|
                        0 <= m < k && (#[trigger] s[m]).index == #[trigger] res@[i] && can_do(
                            s[m]@,
                            linear,
                        ),
                forall|m: int|
                    0 <= m < k && can_do((#[trigger] s[m])@, linear) ==> res@.contains(s[m].index),
            decreases self.devices.len() - k,
        {
            let dev: &ButtplugDevice = &self.devices[k];
            let able: bool = if linear {
                dev.can_linear
            } else {
                dev.can_vibrate
            };
            if able {
                let ghost before = res@;
                res.push(dev.index);
                proof {
                    assert forall|i: int, j: int| 0 <= i < j < res@.len() implies res@[i]
                        < res@[j] by {
                        assert(res@[i] == before[i]);
                        if j == before.len() {
                            let m = choose|m: int|
                                0 <= m < k && (#[trigger] s[m]).index == before[i] && can_do(
                                    s[m]@,
                                    linear,
                                );
                            assert(s[m].index < s[k as int].index);
                        }
                    }
                    assert forall|i: int| 0 <= i < res@.len() implies exists|m: int|
                        0 <= m < k + 1 && (#[trigger] s[m]).index == #[trigger] res@[i] && can_do(
                            s[m]@,
                            linear,
                        ) by {
                        if i < before.len() {
                            assert(res@[i] == before[i]);
                        } else {
                            assert(s[k as int].index == res@[i]);
                        }
                    }
                    assert forall|m: int|
                        0 <= m < k + 1 && can_do((#[trigger] s[m])@, linear) implies res@.contains(
                        s[m].index,
                    ) by {
                        if m < k {
                            let i = choose|i: int|
                                0 <= i < before.len() && before[i] == s[m].index;
                            assert(res@[i] == s[m].index);
                        } else {
                            assert(res@[before.len() as int] == s[m].index);
                        }
                    }
                }
            }
            k += 1;
        }
        res
    }

    /// The devices that are stopped when all motion is to end: all that can move or
    /// vibrate, in the order of their indices.
    pub fn stop_targets(&self) -> (res: Vec<StopTarget>)
        requires
            self.wf(),
        ensures
            stops_all(self@, res@),
    {
        let mut res: Vec<StopTarget> = Vec::new();
        let ghost s = self.devices@;
        proof {
            lemma_devices_map(s);
        }
        let mut k: usize = 0;
        while k < self.devices.len()
            invariant
                k <= self.devices.len(),
                s == self.devices@,
                by_index(s),
                stops_first(s, res@, k as int),
            decreases self.devices.len() - k,
        {
            let dev: &ButtplugDevice = &self.devices[k];
            let ghost before = res@;
            if dev.can_linear || dev.can_vibrate {
                res.push(StopTarget { index: dev.index, linear: dev.can_linear });
            }
            proof {
                lemma_stops_next(s, before, k as int);
            }
            k += 1;
        }
        proof {
            assert forall|index: u32| #[trigger]
                self@.dom().contains(index) && is_stoppable(self@[index]) implies exists|i: int|
                0 <= i < res@.len() && (#[trigger] res@[i]).index == index by {
                let m = choose|m: int| 0 <= m < s.len() && (#[trigger] s[m]).index == index;
                assert(is_stoppable(s[m]@));
                assert(has_target(res@, index));
            }
            assert forall|i: int| 0 <= i < res@.len() implies self@.dom().contains(
                (#[trigger] res@[i]).index,
            ) && is_stoppable(self@[res@[i].index]) && res@[i].linear
                == self@[res@[i].index].can_linear by {
                assert(has_source(s, res@[i], s.len() as int));
                let m = choose|m: int| 0 <= m < s.len() && #[trigger] is_source(s, res@[i], m);
                assert(s[m].index == res@[i].index);
            }
        }
        res
    }
}

/// The targets are the devices that can move or vibrate, each once and in the order of
/// their indices.
pub open spec fn stops_all(devices: Map<u32, DeviceView>, targets: Seq<StopTarget>) -> bool {
    &&& forall|i: int, j: int|
        0 <= i < j < targets.len() ==> (#[trigger] targets[i]).index < (#[trigger] targets[j]).index
    &&& forall|i: int|
        0 <= i < targets.len() ==> {
            let t = #[trigger] targets[i];
            &&& devices.dom().contains(t.index)
            &&& is_stoppable(devices[t.index])
            &&& t.linear == devices[t.index].can_linear
        }
    &&& forall|index: u32| #[trigger]
        devices.dom().contains(index) && is_stoppable(devices[index]) ==> exists|i: int|
            0 <= i < targets.len() && (#[trigger] targets[i]).index == index
}

/// Target `t` is device `m` of a list.
spec fn is_source(s: Seq<ButtplugDevice>, t: StopTarget, m: int) -> bool {
    s[m].index == t.index && is_stoppable(s[m]@) && t.linear == s[m].can_linear
}

spec fn has_source(s: Seq<ButtplugDevice>, t: StopTarget, k: int) -> bool {
    exists|m: int| 0 <= m < k && #[trigger] is_source(s, t, m)
}

spec fn has_target(targets: Seq<StopTarget>, index: u32) -> bool {
    exists|i: int| 0 <= i < targets.len() && (#[trigger] targets[i]).index == index
}

/// The targets are the first `k` devices of a list, as far as they can be stopped.
spec fn stops_first(s: Seq<ButtplugDevice>, targets: Seq<StopTarget>, k: int) -> bool {
    &&& forall|i: int, j: int|
        0 <= i < j < targets.len() ==> (#[trigger] targets[i]).index < (#[trigger] targets[j]).index
    &&& forall|i: int| 0 <= i < targets.len() ==> has_source(s, #[trigger] targets[i], k)
    &&& forall|m: int|
        0 <= m < k && is_stoppable((#[trigger] s[m])@) ==> has_target(targets, s[m].index)
}

proof fn lemma_stops_next(s: Seq<ButtplugDevice>, before: Seq<StopTarget>, k: int)
    requires
        0 <= k < s.len(),
        by_index(s),
        stops_first(s, before, k),
    ensures
        stops_first(
            s,
            if is_stoppable(s[k]@) {
                before.push(StopTarget { index: s[k].index, linear: s[k].can_linear })
            } else {
                before
            },
            k + 1,
        ),
{
    assert forall|i: int| 0 <= i < before.len() implies has_source(
        s,
        #[trigger] before[i],
        k + 1,
    ) && before[i].index < s[k].index by {
        let m = choose|m: int| 0 <= m < k && #[trigger] is_source(s, before[i], m);
        assert(is_source(s, before[i], m));
        assert(s[m].index < s[k].index);
    }
    if is_stoppable(s[k]@) {
        let t = StopTarget { index: s[k].index, linear: s[k].can_linear };
        let after = before.push(t);
        assert(is_source(s, t, k));
        assert forall|i: int| 0 <= i < after.len() implies has_source(
            s,
            #[trigger] after[i],
            k + 1,
        ) by {
            if i < before.len() {
                assert(after[i] == before[i]);
            }
        }
        assert forall|m: int| 0 <= m < k + 1 && is_stoppable((#[trigger] s[m])@) implies has_target(
            after,
            s[m].index,
        ) by {
            if m < k {
                let i = choose|i: int|
                    0 <= i < before.len() && (#[trigger] before[i]).index == s[m].index;
                assert(after[i].index == s[m].index);
            } else {
                assert(after[before.len() as int].index == s[m].index);
            }
        }
    }
}

/// There is only one list of the devices to stop.
pub proof fn lemma_stop_targets_unique(
    devices: Map<u32, DeviceView>,
    a: Seq<StopTarget>,
    b: Seq<StopTarget>,
)
    requires
        stops_all(devices, a),
        stops_all(devices, b),
    ensures
        a == b,
    decreases a.len(),
{
    if a.len() == 0 {
        if b.len() > 0 {
            assert(devices.dom().contains(b[0].index));
        }
        assert(a =~= b);
    } else {
        let last = a.last();
        assert(a[a.len() - 1] == last);
        assert(devices.dom().contains(last.index));
        let i = choose|i: int| 0 <= i < b.len() && (#[trigger] b[i]).index == last.index;
        if i < b.len() - 1 {
            let top = b[b.len() - 1];
            assert(devices.dom().contains(top.index));
            let k = choose|k: int| 0 <= k < a.len() && (#[trigger] a[k]).index == top.index;
            assert(b[i].index < top.index);
            assert(a[k].index <= last.index) by {
                if k < a.len() - 1 {
                    assert(a[k].index < a[a.len() - 1].index);
                }
            }
        }
        assert(b.last() == last);
        let fewer = devices.remove(last.index);
        lemma_stops_without_last(devices, a);
        lemma_stops_without_last(devices, b);
        lemma_stop_targets_unique(fewer, a.drop_last(), b.drop_last());
        assert(a =~= a.drop_last().push(last));
        assert(b =~= b.drop_last().push(last));
    }
}

proof fn lemma_stops_without_last(devices: Map<u32, DeviceView>, a: Seq<StopTarget>)
    requires
        stops_all(devices, a),
        a.len() > 0,
    ensures
        stops_all(devices.remove(a.last().index), a.drop_last()),
{
    let last = a.last();
    let fewer = devices.remove(last.index);
    let rest = a.drop_last();
    assert forall|i: int| 0 <= i < rest.len() implies fewer.dom().contains(
        (#[trigger] rest[i]).index,
    ) && is_stoppable(fewer[rest[i].index]) && rest[i].linear
        == fewer[rest[i].index].can_linear by {
        assert(a[i].index < a[a.len() - 1].index);
    }
    assert forall|index: u32| #[trigger]
        fewer.dom().contains(index) && is_stoppable(fewer[index]) implies exists|i: int|
        0 <= i < rest.len() && (#[trigger] rest[i]).index == index by {
        assert(devices.dom().contains(index));
        let i = choose|i: int| 0 <= i < a.len() && (#[trigger] a[i]).index == index;
        assert(i < a.len() - 1);
        assert(rest[i].index == index);
    }
}

/// A device that can move, or that can vibrate.
pub open spec fn can_do(d: DeviceView, linear: bool) -> bool {
    if linear {
        d.can_linear
    } else {
        d.can_vibrate
    }
}

/// A number of a message and the one that follows it.
pub open spec fn number_after(id: u32) -> u32 {
    if id == u32::MAX {
        0
    } else {
        (id + 1) as u32
    }
}

/// What the user's side asks a server for. Positions and speeds are numbers of
/// `[0, 1]`.
#[derive(Debug)]
pub enum ButtplugCommand {
    Linear { device_index: u32, duration_ms: u32, position: serde_json::Value },
    Vibrate { device_index: u32, speed: serde_json::Value },
    StopAll,
}

/// What a read from the server gave.
#[derive(Debug, Clone, Copy, PartialEq, Eq, Structural)]
pub enum LinkRead {
    /// A text message
    Text,
    /// Some other message
    Other,
    /// Nothing within the time allowed
    TimedOut,
    /// The server ended the connection
    Closed,
    Failed,
}

/// What the link does after a read.
#[derive(Debug, Clone, Copy, PartialEq, Eq, Structural)]
pub enum LinkStep {
    /// Takes in the events of the message
    TakeIn,
    GoOn,
    /// Waits for so many milliseconds and goes on
    Wait(u64),
    /// Ends the connection
    End,
}

/// Decides how the link goes on after a read.
pub fn after_read(read: LinkRead) -> (step: LinkStep)
    ensures
        step == (match read {
            LinkRead::Text => LinkStep::TakeIn,
            LinkRead::Other => LinkStep::GoOn,
            LinkRead::TimedOut => LinkStep::Wait(5),
            LinkRead::Closed => LinkStep::End,
            LinkRead::Failed => LinkStep::End,
        }),
{
    match read {
        LinkRead::Text => LinkStep::TakeIn,
        LinkRead::Other => LinkStep::GoOn,
        LinkRead::TimedOut => LinkStep::Wait(5),
        LinkRead::Closed | LinkRead::Failed => LinkStep::End,
    }
}

/// The event for a connection that could not be made.
pub fn connection_failed(error: &str) -> (event: ButtplugEvent)
    ensures
        event@ == PlugEventView::Error("Connection failed: "@ + error@),
{
    let mut text: String = "Connection failed: ".to_owned();
    text.append(error);
    ButtplugEvent::Error(text)
}

impl ButtplugDispatcher {
    /// The messages that open a connection, each with a number of its own: who is
    /// calling, which devices are there, and that new ones be looked for.
    pub fn handshake(&mut self, client_name: &str) -> (messages: (String, String, String))
        requires
            old(self).wf(),
        ensures
            final(self).wf(),
            final(self)@ == old(self)@,
            ({
                let a = old(self).next_number();
                let b = number_after(a);
                let c = number_after(b);
                &&& messages.0@ == text_of_json(server_info_message(a, client_name@))
                &&& messages.1@ == text_of_json(bare_message("RequestDeviceList"@, b))
                &&& messages.2@ == text_of_json(bare_message("StartScanning"@, c))
                &&& final(self).next_number() == number_after(c)
            }),
    {
        let a: u32 = self.take_number();
        let b: u32 = self.take_number();
        let c: u32 = self.take_number();
        (
            ButtplugProtocol::format_server_info(a, client_name),
            ButtplugProtocol::format_request_device_list(b),
            ButtplugProtocol::format_start_scanning(c),
        )
    }

    /// The messages for a command, under the next number; `zero` is the number zero.
    /// A stop has one for each device that can be stopped.
    pub fn wire_messages(&mut self, command: ButtplugCommand, zero: serde_json::Value) -> (messages:
        Vec<String>)
        requires
            old(self).wf(),
        ensures
            final(self).wf(),
            final(self)@ == old(self)@,
            final(self).next_number() == number_after(old(self).next_number()),
            ({
                let id = old(self).next_number();
                match command {
                    ButtplugCommand::Linear { device_index, duration_ms, position } => {
                        &&& messages.len() == 1
                        &&& messages[0]@ == text_of_json(
                            linear_message(id, device_index, duration_ms, contents(position)),
                        )
                    },
                    ButtplugCommand::Vibrate { device_index, speed } => {
                        &&& messages.len() == 1
                        &&& messages[0]@ == text_of_json(
                            vibrate_message(id, device_index, contents(speed)),
                        )
                    },
                    ButtplugCommand::StopAll => exists|targets: Seq<StopTarget>|
                        {
                            &&& #[trigger] stops_all(old(self)@, targets)
                            &&& are_stops(messages@, id, targets, contents(zero))
                        },
                }
            }),
    {
        let id: u32 = self.take_number();
        let mut messages: Vec<String> = Vec::new();
        match command {
            ButtplugCommand::Linear { device_index, duration_ms, position } => {
                messages.push(
                    ButtplugProtocol::format_linear_cmd(id, device_index, duration_ms, position),
                );
            },
            ButtplugCommand::Vibrate { device_index, speed } => {
                messages.push(ButtplugProtocol::format_vibrate_cmd(id, device_index, speed));
            },
            ButtplugCommand::StopAll => {
                let targets: Vec<StopTarget> = self.stop_targets();
                let mut i: usize = 0;
                while i < targets.len()
                    invariant
                        i <= targets.len(),
                        are_stops(messages@, id, targets@.take(i as int), contents(zero)),
                    decreases targets.len() - i,
                {
                    let t: StopTarget = targets[i];
                    let stop: String = if t.linear {
                        ButtplugProtocol::format_linear_cmd(id, t.index, 500, copy(&zero))
                    } else {
                        ButtplugProtocol::format_vibrate_cmd(id, t.index, copy(&zero))
                    };
                    messages.push(stop);
                    i += 1;
                }
                assert(targets@.take(i as int) =~= targets@);
            },
        }
        messages
    }
}

/// The messages stop the targets, one each, in the same order.
pub open spec fn are_stops(
    messages: Seq<String>,
    id: u32,
    targets: Seq<StopTarget>,
    zero: JsonView,
) -> bool {
    &&& messages.len() == targets.len()
    &&& forall|i: int|
        0 <= i < messages.len() ==> (#[trigger] messages[i])@ == text_of_json(
            stop_message(id, targets[i].index, targets[i].linear, zero),
        )
}

/// The message that moves a device.
pub open spec fn linear_message(
    id: u32,
    device_index: u32,
    duration_ms: u32,
    position: JsonView,
) -> JsonView {
    device_message(
        "LinearCmd"@,
        id,
        device_index,
        "Vectors"@,
        linear_entry(duration_ms, position),
    )
}

/// The message that makes a device vibrate.
pub open spec fn vibrate_message(id: u32, device_index: u32, speed: JsonView) -> JsonView {
    device_message("ScalarCmd"@, id, device_index, "Scalars"@, vibrate_entry(speed))
}

/// The message that stops a device: a slow move to the start, or the end of its
/// vibration.
pub open spec fn stop_message(id: u32, device_index: u32, linear: bool, zero: JsonView) -> JsonView {
    if linear {
        linear_message(id, device_index, 500, zero)
    } else {
        vibrate_message(id, device_index, zero)
    }
}

/// When all motion is to end, a device that can move is stopped by a move, one that can only
/// vibrate by the end of its vibration, and one that can do neither is left alone.
pub proof fn lemma_device_stopped(
    devices: Map<u32, DeviceView>,
    targets: Seq<StopTarget>,
    index: u32,
)
    requires
        stops_all(devices, targets),
        devices.dom().contains(index),
    ensures
        devices[index].can_linear ==> targets.contains(StopTarget { index, linear: true }),
        !devices[index].can_linear && devices[index].can_vibrate ==> targets.contains(
            StopTarget { index, linear: false },
        ),
        forall|i: int|
            0 <= i < targets.len() && (#[trigger] targets[i]).index == index
                ==> devices[index].can_linear || devices[index].can_vibrate,
{
    if devices[index].can_linear || devices[index].can_vibrate {
        assert(is_stoppable(devices[index]));
        let i = choose|i: int| 0 <= i < targets.len() && (#[trigger] targets[i]).index == index;
        assert(targets[i] == (StopTarget { index, linear: devices[index].can_linear }));
    }
}

/// Every event of a message is among those of the document; its place is returned.
pub proof fn lemma_event_heard(items: Seq<JsonView>, n: nat, i: int, k: int) -> (p: int)
    requires
        0 <= i < n,
        0 <= k < message_events(items[i]).len(),
    ensures
        0 <= p < events_below(items, n).len(),
        events_below(items, n)[p] == message_events(items[i])[k],
    decreases n,
{
    let head = events_below(items, (n - 1) as nat);
    if i == n - 1 {
        assert(events_below(items, n)[head.len() + k] == message_events(items[i])[k]);
        head.len() + k
    } else {
        let p = lemma_event_heard(items, (n - 1) as nat, i, k);
        assert(events_below(items, n)[p] == head[p]);
        p
    }
}

/// Every event of the document is of one of its messages; the message's place is returned.
pub proof fn lemma_event_has_message(items: Seq<JsonView>, n: nat, p: int) -> (i: int)
    requires
        0 <= p < events_below(items, n).len(),
    ensures
        0 <= i < n,
        message_events(items[i]).contains(events_below(items, n)[p]),
    decreases n,
{
    let head = events_below(items, (n - 1) as nat);
    if p < head.len() {
        assert(events_below(items, n)[p] == head[p]);
        lemma_event_has_message(items, (n - 1) as nat, p)
    } else {
        assert(message_events(items[n - 1])[p - head.len()] == events_below(items, n)[p]);
        n - 1
    }
}

/// An object describes a device where it has an index and a name. The device can move where
/// it takes linear commands, and vibrate where it takes scalar or vibration commands.
pub proof fn lemma_device_described(dev: JsonView, index: u32, name: Seq<char>)
    requires
        member(dev, "DeviceIndex"@) == Some(JsonView::Unsigned(index as u64)),
        member(dev, "DeviceName"@) == Some(JsonView::Text(name)),
    ensures
        ({
            let takes = |kind: Seq<char>|
                member(dev, "DeviceMessages"@) matches Some(messages) && member(messages, kind)
                    is Some;
            let d = device_in(dev);
            &&& d is Some
            &&& d->0.index == index
            &&& d->0.name == name
            &&& d->0.can_linear <==> takes("LinearCmd"@)
            &&& d->0.can_vibrate <==> takes("ScalarCmd"@) || takes("VibrateCmd"@)
        }),
{
}

/// Every device of a list that is described becomes known: its announcement is among the
/// events of the list.
pub proof fn lemma_listed_device_announced(devices: Seq<JsonView>, n: nat, i: int)
    requires
        0 <= i < n,
        device_in(devices[i]) is Some,
    ensures
        list_events(devices, n).contains(PlugEventView::DeviceAdded(device_in(devices[i])->0)),
    decreases n,
{
    let head = list_events(devices, (n - 1) as nat);
    let all = list_events(devices, n);
    let event = PlugEventView::DeviceAdded(device_in(devices[i])->0);
    if i == n - 1 {
        assert(added_events(devices[i])[0] == event);
        assert(all[head.len() as int] == event);
    } else {
        lemma_listed_device_announced(devices, (n - 1) as nat, i);
        let k = choose|k: int| 0 <= k < head.len() && head[k] == event;
        assert(all[k] == event);
    }
}

/// A list of devices announces nothing else.
pub proof fn lemma_announced_device_listed(devices: Seq<JsonView>, n: nat, p: int) -> (i: int)
    requires
        0 <= p < list_events(devices, n).len(),
    ensures
        0 <= i < n,
        device_in(devices[i]) is Some,
        list_events(devices, n)[p] == PlugEventView::DeviceAdded(device_in(devices[i])->0),
    decreases n,
{
    let head = list_events(devices, (n - 1) as nat);
    if p < head.len() {
        lemma_announced_device_listed(devices, (n - 1) as nat, p)
    } else {
        n - 1
    }
}

/// A message about one thing has one event at most, and that tells what the message says: a
/// server's name, a device that came or went, or an error.
pub proof fn lemma_message_of_kind(kind: Seq<char>, body: JsonView)
    ensures
        kind == "DeviceAdded"@ && device_in(body) is Some ==> message_events(object1(kind, body))
            == seq![PlugEventView::DeviceAdded(device_in(body)->0)],
        kind == "DeviceAdded"@ && device_in(body) is None ==> message_events(
            object1(kind, body),
        ).len() == 0,
        kind == "DeviceRemoved"@ ==> (member(body, "DeviceIndex"@) matches Some(
            JsonView::Unsigned(index),
        ) ==> (index <= u32::MAX ==> message_events(object1(kind, body)) == seq![
            PlugEventView::DeviceRemoved { index: index as u32 },
        ])),
        kind == "ServerInfo"@ ==> (member(body, "ServerName"@) matches Some(JsonView::Text(name))
            ==> message_events(object1(kind, body)) == seq![
            PlugEventView::Connected { server_name: name },
        ]),
        kind == "Error"@ ==> (member(body, "ErrorMessage"@) matches Some(JsonView::Text(text))
            ==> message_events(object1(kind, body)) == seq![PlugEventView::Error(text)]),
{
    reveal_strlit("ServerInfo");
    reveal_strlit("DeviceList");
    reveal_strlit("DeviceAdded");
    reveal_strlit("DeviceRemoved");
    reveal_strlit("Error");
    assert("ServerInfo"@[0] != "DeviceList"@[0]);
    assert("DeviceList"@.len() != "DeviceAdded"@.len());
    assert("DeviceRemoved"@.len() != "DeviceAdded"@.len());
    assert("Error"@.len() != "DeviceAdded"@.len());
}

/// A move and a vibration can be read back out of their messages: number, device, how long
/// and where to, or how strong.
pub proof fn lemma_command_reads_back(
    id: u32,
    device_index: u32,
    duration_ms: u32,
    value: JsonView,
)
    ensures
        ({
            let move_to = items_in(Some(linear_message(id, device_index, duration_ms, value)));
            let body = member(move_to->0[0], "LinearCmd"@);
            let entries = items_in(member_of(body, "Vectors"@));
            &&& move_to is Some && move_to->0.len() == 1
            &&& unsigned_in(member_of(body, "Id"@)) == Some(id as u64)
            &&& unsigned_in(member_of(body, "DeviceIndex"@)) == Some(device_index as u64)
            &&& entries is Some && entries->0.len() == 1
            &&& unsigned_in(member(entries->0[0], "Index"@)) == Some(0u64)
            &&& unsigned_in(member(entries->0[0], "Duration"@)) == Some(duration_ms as u64)
            &&& member(entries->0[0], "Position"@) == Some(value)
        }),
        ({
            let vibrate = items_in(Some(vibrate_message(id, device_index, value)));
            let body = member(vibrate->0[0], "ScalarCmd"@);
            let entries = items_in(member_of(body, "Scalars"@));
            &&& vibrate is Some && vibrate->0.len() == 1
            &&& unsigned_in(member_of(body, "Id"@)) == Some(id as u64)
            &&& unsigned_in(member_of(body, "DeviceIndex"@)) == Some(device_index as u64)
            &&& entries is Some && entries->0.len() == 1
            &&& unsigned_in(member(entries->0[0], "Index"@)) == Some(0u64)
            &&& member(entries->0[0], "Scalar"@) == Some(value)
            &&& text_in(member(entries->0[0], "ActuatorType"@)) == Some("Vibrate"@)
        }),
{
    lemma_names_differ();
}

proof fn lemma_names_differ()
    ensures
        "Id"@ != "DeviceIndex"@,
        "Id"@ != "Vectors"@,
        "Id"@ != "Scalars"@,
        "DeviceIndex"@ != "Vectors"@,
        "DeviceIndex"@ != "Scalars"@,
        "Index"@ != "Duration"@,
        "Index"@ != "Position"@,
        "Duration"@ != "Position"@,
        "Index"@ != "Scalar"@,
        "Index"@ != "ActuatorType"@,
        "Scalar"@ != "ActuatorType"@,
{
    reveal_strlit("Id");
    reveal_strlit("DeviceIndex");
    reveal_strlit("Vectors");
    reveal_strlit("Scalars");
    reveal_strlit("Index");
    reveal_strlit("Duration");
    reveal_strlit("Position");
    reveal_strlit("Scalar");
    reveal_strlit("ActuatorType");
    assert("Id"@.len() == 2 && "Index"@.len() == 5 && "Scalar"@.len() == 6);
    assert("Vectors"@.len() == 7 && "Scalars"@.len() == 7);
    assert("DeviceIndex"@.len() == 11 && "ActuatorType"@.len() == 12);
    assert("Duration"@.len() == 8 && "Position"@.len() == 8);
    assert("Duration"@[0] != "Position"@[0]);
}

} // verus!
