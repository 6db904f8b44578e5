//! The panels for devices and automation: what their controls do and say.
use crate::batch::{lemma_enqueued_valid, BatchJobStatus, BatchQueue, QueueView};
use crate::device::{
    device_axes, device_label, device_limits, device_name, DeviceProfile, DeviceType,
};
use crate::doctor::DoctorReport;
use crate::handy::HandyStatus;
use crate::paths::parts_of;
use crate::serial::DetectedSerialPort;
use crate::tcode::TCodeDispatcher;
use crate::text::{append_decimal, decimal, same_text, trim, trimmed};
use vstd::prelude::*;
use vstd::string::*;

verus! {

/// The first port of the given name, from place `i` on, or the end.
pub open spec fn port_place(ports: Seq<DetectedSerialPort>, name: Seq<char>, i: int) -> int
    decreases ports.len() - i,
{
    if i < 0 || i >= ports.len() || ports[i].name@ == name {
        i
    } else {
        port_place(ports, name, i + 1)
    }
}

/// What the selection of a serial port shows: the label of the selected port, its
/// name where it is not there, or that there are none.
pub fn selected_port_label(ports: &Vec<DetectedSerialPort>, selected: &str) -> (label: String)
    ensures
        label@ == (if ports.len() == 0 {
            "(No serial ports detected)"@
        } else if port_place(ports@, selected@, 0) < ports.len() {
            ports@[port_place(ports@, selected@, 0)].label@
        } else {
            selected@
        }),
{
    if ports.len() == 0 {
        return "(No serial ports detected)".to_owned();
    }
    let mut i: usize = 0;
    while i < ports.len()
        invariant
            i <= ports.len(),
            ports.len() > 0,
            port_place(ports@, selected@, 0) == port_place(ports@, selected@, i as int),
        decreases ports.len() - i,
    {
        if same_text(ports[i].name.as_str(), selected) {
            return ports[i].label.clone();
        }
        i += 1;
    }
    selected.to_owned()
}

/// The selected port after a search: the first one found where none was selected.
pub fn reselect_port(ports: &Vec<DetectedSerialPort>, selected: &str) -> (res: (String, String))
    ensures
        res.0@ == (if ports.len() > 0 && selected@.len() == 0 {
            ports@[0].name@
        } else {
            selected@
        }),
        res.1@ == "Found "@ + decimal(ports@.len()) + " serial communication port(s)"@,
{
    let mut said: String = "Found ".to_owned();
    append_decimal(&mut said, ports.len() as u64);
    said.append(" serial communication port(s)");
    if ports.len() > 0 && selected.unicode_len() == 0 {
        (ports[0].name.clone(), said)
    } else {
        (selected.to_owned(), said)
    }
}

/// What a baud rate is known for.
pub open spec fn baud_tag(baud: u32) -> Seq<char> {
    if baud == 115200 {
        " (OSR2 / SR6 Standard)"@
    } else if baud == 230400 {
        " (High Speed)"@
    } else if baud == 921600 {
        " (Ultra-Fast ESP32)"@
    } else {
        ""@
    }
}

/// The label of a baud rate.
pub fn baud_label(baud: u32) -> (label: String)
    ensures
        label@ == decimal(baud as nat) + " baud"@ + baud_tag(baud),
{
    let mut label: String = String::new();
    append_decimal(&mut label, baud as u64);
    label.append(" baud");
    let tag: &str = if baud == 115200 {
        " (OSR2 / SR6 Standard)"
    } else if baud == 230400 {
        " (High Speed)"
    } else if baud == 921600 {
        " (Ultra-Fast ESP32)"
    } else {
        ""
    };
    label.append(tag);
    label
}

/// What the button of a serial port does.
#[derive(Debug, Clone, Copy, PartialEq, Eq, Structural)]
pub enum LinkAction {
    Disabled,
    Connect,
    Disconnect,
}

/// The button is of use only where a port is selected.
pub fn serial_action(is_connected: bool, selected: &str) -> (action: LinkAction)
    ensures
        action == (if selected@.len() == 0 {
            LinkAction::Disabled
        } else if is_connected {
            LinkAction::Disconnect
        } else {
            LinkAction::Connect
        }),
{
    if selected.unicode_len() == 0 {
        LinkAction::Disabled
    } else if is_connected {
        LinkAction::Disconnect
    } else {
        LinkAction::Connect
    }
}

/// What is said of an attempt to open a serial port.
pub fn serial_status(port: &str, baud: u32, result: &Result<(), String>) -> (said: String)
    ensures
        said@ == (match *result {
            Ok(_) => "Connected to "@ + port@ + " @ "@ + decimal(baud as nat) + " baud"@,
            Err(error) => "Serial connection error: "@ + error@,
        }),
{
    match result {
        Ok(_) => {
            let mut said: String = "Connected to ".to_owned();
            said.append(port);
            said.append(" @ ");
            append_decimal(&mut said, baud as u64);
            said.append(" baud");
            said
        },
        Err(error) => {
            let mut said: String = "Serial connection error: ".to_owned();
            said.append(error.as_str());
            said
        },
    }
}

/// Switches the broadcast of T-Code on or off, to the address given. Returns what
/// is said of it.
pub fn toggle_broadcast(dispatcher: &mut TCodeDispatcher, enabled: &mut bool, address: &str) -> (said:
    String)
    ensures
        *final(enabled) == !*old(enabled),
        final(dispatcher).is_enabled == *final(enabled),
        final(dispatcher).target_addr@ == address@,
        final(dispatcher).last_sent_string == old(dispatcher).last_sent_string,
        said@ == (if *final(enabled) {
            "Streaming T-Code v0.3 to UDP "@ + address@
        } else {
            "UDP Broadcast disconnected"@
        }),
{
    *enabled = !*enabled;
    dispatcher.target_addr = address.to_owned();
    dispatcher.is_enabled = *enabled;
    if *enabled {
        let mut said: String = "Streaming T-Code v0.3 to UDP ".to_owned();
        said.append(address);
        said
    } else {
        "UDP Broadcast disconnected".to_owned()
    }
}

/// The line shown of the broadcast: the last one, or an example.
pub fn broadcast_preview(last: &str) -> (line: String)
    ensures
        line@ == (if last@.len() == 0 {
            "L05000 I100\n"@
        } else {
            last@
        }),
{
    if last.unicode_len() == 0 {
        "L05000 I100\n".to_owned()
    } else {
        last.to_owned()
    }
}

/// What is said when the sync server was started, or could not be.
pub fn server_status(port: u16, started: bool) -> (said: String)
    ensures
        said@ == (if started {
            "VR Sync Server listening on port "@
        } else {
            "Failed to bind port "@
        }) + decimal(port as nat),
{
    let mut said: String = if started {
        "VR Sync Server listening on port ".to_owned()
    } else {
        "Failed to bind port ".to_owned()
    };
    append_decimal(&mut said, port as u64);
    said
}

/// Chooses a device: its profile, and what is said of it.
pub fn choose_device(device: DeviceType) -> (res: (DeviceProfile, String))
    ensures
        res.0.device_type == device,
        res.0.name@ == device_name(device),
        res.0.limits == device_limits(device),
        res.0.supported_axes@ == device_axes(device),
        res.1@ == "Active hardware profile: "@ + device_label(device),
{
    let mut said: String = "Active hardware profile: ".to_owned();
    said.append(device.display_name());
    (DeviceProfile::for_device(device), said)
}

/// What is shown of a connected device.
pub fn connected_label(status: &HandyStatus) -> (label: String)
    ensures
        label@ == "● Connected ("@ + status.model@ + " | FW: "@ + status.fw_version@ + " | HW: "@
            + status.hw_version@ + " | "@ + decimal(status.last_ping_ms as nat) + "ms ping)"@,
{
    let mut label: String = "● Connected (".to_owned();
    label.append(status.model.as_str());
    label.append(" | FW: ");
    label.append(status.fw_version.as_str());
    label.append(" | HW: ");
    label.append(status.hw_version.as_str());
    label.append(" | ");
    append_decimal(&mut label, status.last_ping_ms);
    label.append("ms ping)");
    label
}

/// The number of the mode to set when the protocol was changed: none where it was
/// not, or the device is not connected.
pub fn mode_change(was_direct: bool, is_direct: bool, is_connected: bool) -> (mode: Option<i32>)
    ensures
        mode == (if was_direct == is_direct || !is_connected {
            None
        } else if is_direct {
            Some(3i32)
        } else {
            Some(2i32)
        }),
{
    if was_direct == is_direct || !is_connected {
        None
    } else if is_direct {
        Some(3)
    } else {
        Some(2)
    }
}

/// Ready-made ranges of a stroke.
#[derive(Debug, Clone, Copy, PartialEq, Eq, Structural)]
pub enum StrokePreset {
    Full,
    Deep,
    Tip,
    Comfort,
}

impl StrokePreset {
    /// The range in percent.
    pub fn range(&self) -> (range: (u32, u32))
        ensures
            range == (match *self {
                StrokePreset::Full => (0u32, 100u32),
                StrokePreset::Deep => (0u32, 60u32),
                StrokePreset::Tip => (40u32, 100u32),
                StrokePreset::Comfort => (20u32, 80u32),
            }),
            range.0 < range.1 <= 100,
    {
        match self {
            StrokePreset::Full => (0, 100),
            StrokePreset::Deep => (0, 60),
            StrokePreset::Tip => (40, 100),
            StrokePreset::Comfort => (20, 80),
        }
    }
}

/// How a script fares in an audit.
#[derive(Debug, Clone, Copy, PartialEq, Eq, Structural)]
pub enum Health {
    Perfect,
    TooFast,
    Questionable,
}

impl Health {
    /// The health that a report shows.
    pub fn of(report: &DoctorReport) -> (health: Health)
        ensures
            health == (if report.speed_violations_count > 0 {
                Health::TooFast
            } else if report.timing_inversions_count > 0 {
                Health::Questionable
            } else {
                Health::Perfect
            }),
    {
        if report.speed_violations_count == 0 && report.timing_inversions_count == 0 {
            Health::Perfect
        } else if report.speed_violations_count > 0 {
            Health::TooFast
        } else {
            Health::Questionable
        }
    }

    /// In a word, for the summary.
    pub fn summary(&self) -> (text: &'static str)
        ensures
            text@ == (match *self {
                Health::Perfect => "PERFECT"@,
                Health::TooFast => "SPEED VIOLATIONS"@,
                Health::Questionable => "WARNINGS DETECTED"@,
            }),
    {
        match self {
            Health::Perfect => "PERFECT",
            Health::TooFast => "SPEED VIOLATIONS",
            Health::Questionable => "WARNINGS DETECTED",
        }
    }

    /// In a sentence, for the full report.
    pub fn badge(&self) -> (text: &'static str)
        ensures
            text@ == (match *self {
                Health::Perfect => "PERFECT - Hardware Certified Safe"@,
                Health::TooFast => "WARNING - Motor Speed Violations Detected"@,
                Health::Questionable => "ATTENTION - Timing Inversions or Anomalies"@,
            }),
    {
        match self {
            Health::Perfect => "PERFECT - Hardware Certified Safe",
            Health::TooFast => "WARNING - Motor Speed Violations Detected",
            Health::Questionable => "ATTENTION - Timing Inversions or Anomalies",
        }
    }
}

/// The key that was typed in; a blank one is none.
pub fn typed_key(text: &str) -> (key: Option<String>)
    ensures
        key is None <==> trimmed(text@).len() == 0,
        key matches Some(k) ==> k@ == text@,
{
    let bare: String = trim(text);
    if bare.as_str().unicode_len() == 0 {
        None
    } else {
        Some(text.to_owned())
    }
}

/// The queue after the first `n` videos of a media server's scenes.
pub open spec fn scenes_queued(
    q: QueueView,
    videos: Seq<String>,
    outputs: Seq<String>,
    n: nat,
) -> QueueView
    decreases n,
{
    if n == 0 {
        q
    } else {
        scenes_queued(q, videos, outputs, (n - 1) as nat).enqueued(
            videos[n - 1]@,
            outputs[n - 1]@,
        )
    }
}

/// Enqueues the videos of a media server's scenes, each with the script to make.
/// Returns what is said of it.
pub fn enqueue_scenes(queue: &mut BatchQueue, videos: &Vec<String>, outputs: &Vec<String>) -> (said:
    String)
    requires
        videos.len() == outputs.len(),
        old(queue).next_job_id + videos.len() <= usize::MAX,
    ensures
        final(queue)@ == scenes_queued(old(queue)@, videos@, outputs@, videos@.len()),
        said@ == "Enqueued "@ + decimal(
            (final(queue)@.jobs.len() - old(queue)@.jobs.len()) as nat,
        ) + " scenes from Stash into Batch Queue!"@,
{
    let mut added: usize = 0;
    let mut i: usize = 0;
    while i < videos.len()
        invariant
            i <= videos.len(),
            videos.len() == outputs.len(),
            added <= i,
            old(queue).next_job_id + videos.len() <= usize::MAX,
            queue.next_job_id <= old(queue).next_job_id + i,
            queue@ == scenes_queued(old(queue)@, videos@, outputs@, i as nat),
            queue@.jobs.len() == old(queue)@.jobs.len() + added,
        decreases videos.len() - i,
    {
        if queue.enqueue(videos[i].clone(), outputs[i].clone()) {
            added += 1;
        }
        i += 1;
    }
    let mut said: String = "Enqueued ".to_owned();
    append_decimal(&mut said, added as u64);
    said.append(" scenes from Stash into Batch Queue!");
    said
}

/// What is shown of a job; `percent` is its progress in whole percent.
pub fn job_label(status: &BatchJobStatus, percent: u64) -> (label: String)
    ensures
        label@ == (match *status {
            BatchJobStatus::Queued => "QUEUED"@,
            BatchJobStatus::Processing { .. } => "RUNNING ("@ + decimal(percent as nat) + "%)"@,
            BatchJobStatus::Completed { actions_count, .. } => "DONE ("@ + decimal(
                actions_count as nat,
            ) + " pts)"@,
            BatchJobStatus::Failed { error } => "ERR: "@ + error@,
            BatchJobStatus::Skipped { reason } => "SKIP: "@ + reason@,
        }),
{
    match status {
        BatchJobStatus::Queued => "QUEUED".to_owned(),
        BatchJobStatus::Processing { .. } => {
            let mut label: String = "RUNNING (".to_owned();
            append_decimal(&mut label, percent);
            label.append("%)");
            label
        },
        BatchJobStatus::Completed { actions_count, .. } => {
            let mut label: String = "DONE (".to_owned();
            append_decimal(&mut label, *actions_count as u64);
            label.append(" pts)");
            label
        },
        BatchJobStatus::Failed { error } => {
            let mut label: String = "ERR: ".to_owned();
            label.append(error.as_str());
            label
        },
        BatchJobStatus::Skipped { reason } => {
            let mut label: String = "SKIP: ".to_owned();
            label.append(reason.as_str());
            label
        },
    }
}

/// What the button of the batch does.
#[derive(Debug, Clone, Copy, PartialEq, Eq, Structural)]
pub enum BatchAction {
    Stop,
    Start,
    Nothing,
}

/// A batch that runs can be stopped; one with jobs can be started.
pub fn batch_action(is_active: bool, job_count: usize) -> (action: BatchAction)
    ensures
        action == (if is_active {
            BatchAction::Stop
        } else if job_count > 0 {
            BatchAction::Start
        } else {
            BatchAction::Nothing
        }),
{
    if is_active {
        BatchAction::Stop
    } else if job_count > 0 {
        BatchAction::Start
    } else {
        BatchAction::Nothing
    }
}

/// The port shown is the first one of the selected name; none is passed over.
pub proof fn lemma_port_found(ports: Seq<DetectedSerialPort>, name: Seq<char>, i: int, k: int)
    requires
        0 <= i <= k < ports.len(),
        ports[k].name@ == name,
    ensures
        i <= port_place(ports, name, i) <= k,
        ports[port_place(ports, name, i)].name@ == name,
    decreases ports.len() - i,
{
    if ports[i].name@ != name {
        lemma_port_found(ports, name, i + 1, k);
    }
}

/// Every video of the scenes has a job afterwards, and those that were in the queue stay in
/// front.
pub proof fn lemma_scenes_queued(
    q: QueueView,
    videos: Seq<String>,
    outputs: Seq<String>,
    n: nat,
    k: int,
)
    requires
        q.valid(),
        0 <= q.next_job_id,
        q.next_job_id + n <= usize::MAX,
        0 <= k < n,
    ensures
        scenes_queued(q, videos, outputs, n).holds(videos[k]@),
        q.jobs.is_prefix_of(scenes_queued(q, videos, outputs, n).jobs),
        scenes_queued(q, videos, outputs, n).valid(),
        0 <= scenes_queued(q, videos, outputs, n).next_job_id <= q.next_job_id + n,
    decreases n,
{
    let before = scenes_queued(q, videos, outputs, (n - 1) as nat);
    let after = scenes_queued(q, videos, outputs, n);
    if n > 1 {
        lemma_scenes_queued(
            q,
            videos,
            outputs,
            (n - 1) as nat,
            if k < n - 1 {
                k
            } else {
                0
            },
        );
    }
    lemma_enqueued_valid(before, videos[n - 1]@, outputs[n - 1]@);
    if k < n - 1 {
        let m = choose|m: int|
            0 <= m < before.jobs.len() && parts_of((#[trigger] before.jobs[m]).video) == parts_of(
                videos[k]@,
            );
        assert(after.jobs[m] == before.jobs[m]);
    }
}

} // verus!
