//! Serial ports: their labels and the state of the link to one.
use crate::funscript::text_of;
use crate::text::{joined, trim, trim_end, trimmed, trimmed_end};
use vstd::prelude::*;
use vstd::string::*;

verus! {

/// Information about a detected serial communication port.
#[derive(Debug, PartialEq, Eq)]
pub struct DetectedSerialPort {
    /// System device path, e.g. `/dev/ttyUSB0` or `COM3`.
    pub name: String,
    /// Human-friendly display label with hardware identifier.
    pub label: String,
}

/// How a port is attached.
#[derive(Debug)]
pub enum PortKind {
    Usb { product: Option<String>, manufacturer: Option<String> },
    Pci,
    Bluetooth,
    Unknown,
}

/// A name with a remark in brackets.
pub open spec fn remarked(name: Seq<char>, remark: Seq<char>) -> Seq<char> {
    name + " ("@ + remark + ")"@
}

/// The label of a port: its name and what is known of what is attached.
pub open spec fn port_label(name: Seq<char>, kind: PortKind) -> Seq<char> {
    match kind {
        PortKind::Usb { product: Some(p), .. } => remarked(name, p@),
        PortKind::Usb { product: None, manufacturer: Some(m) } => remarked(name, m@),
        PortKind::Usb { product: None, manufacturer: None } => remarked(name, "USB Device"@),
        PortKind::Pci => remarked(name, "PCI Serial"@),
        PortKind::Bluetooth => remarked(name, "Bluetooth"@),
        PortKind::Unknown => name,
    }
}

fn remark(name: &str, text: &str) -> (res: String)
    ensures
        res@ == remarked(name@, text@),
{
    let mut res: String = name.to_owned();
    res.append(" (");
    res.append(text);
    res.append(")");
    res
}

impl DetectedSerialPort {
    /// A port with its label.
    pub fn new(name: String, kind: PortKind) -> (res: Self)
        ensures
            res.name == name,
            res.label@ == port_label(name@, kind),
    {
        let label: String = match &kind {
            PortKind::Usb { product: Some(p), .. } => remark(name.as_str(), p.as_str()),
            PortKind::Usb { product: None, manufacturer: Some(m) } => remark(
                name.as_str(),
                m.as_str(),
            ),
            PortKind::Usb { product: None, manufacturer: None } => remark(
                name.as_str(),
                "USB Device",
            ),
            PortKind::Pci => remark(name.as_str(), "PCI Serial"),
            PortKind::Bluetooth => remark(name.as_str(), "Bluetooth"),
            PortKind::Unknown => name.clone(),
        };
        DetectedSerialPort { name, label }
    }
}

/// What is to be done with a command.
#[derive(Debug)]
pub enum SendPlan {
    /// Nothing; the link is down
    Idle,
    /// The link was thought to be up but has no port
    Fail(String),
    /// The payload is written to the port
    Write(String),
}

/// State of the direct link to a serial port.
#[derive(Debug)]
pub struct SerialDispatcher {
    pub port_name: String,
    pub baud_rate: u32,
    pub is_connected: bool,
    pub last_error: Option<String>,
    pub sent_commands_count: usize,
    pub last_sent_command: Option<String>,
}

impl SerialDispatcher {
    /// Standard supported baud rates for T-Code microcontrollers.
    pub const SUPPORTED_BAUD_RATES: [u32; 6] = [115200, 230400, 460800, 921600, 57600, 9600];

    /// Initialize a new disconnected serial dispatcher.
    pub fn new() -> (res: Self)
        ensures
            res.port_name@.len() == 0,
            res.baud_rate == 115200,
            !res.is_connected,
            res.last_error is None,
            res.sent_commands_count == 0,
            res.last_sent_command is None,
    {
        SerialDispatcher {
            port_name: String::new(),
            baud_rate: 115200,
            is_connected: false,
            last_error: None,
            sent_commands_count: 0,
            last_sent_command: None,
        }
    }

    /// Accounts for an attempt to open a port: `failure` is the reason why it
    /// did not open, if it did not.
    pub fn connect(&mut self, port_name: &str, baud_rate: u32, failure: Option<String>) -> (res:
        Result<(), String>)
        ensures
            final(self).sent_commands_count == old(self).sent_commands_count,
            final(self).last_sent_command == old(self).last_sent_command,
            res is Ok <==> failure is None,
            final(self).is_connected == (failure is None),
            failure is None ==> {
                &&& final(self).port_name@ == port_name@
                &&& final(self).baud_rate == baud_rate
                &&& final(self).last_error is None
            },
            failure matches Some(e) ==> {
                &&& final(self).port_name == old(self).port_name
                &&& final(self).baud_rate == old(self).baud_rate
                &&& text_of(final(self).last_error) == Some(open_failure(port_name@, e@))
                &&& res matches Err(m) && m@ == open_failure(port_name@, e@)
            },
    {
        self.disconnect();
        match failure {
            None => {
                self.port_name = port_name.to_owned();
                self.baud_rate = baud_rate;
                self.is_connected = true;
                self.last_error = None;
                Ok(())
            },
            Some(e) => {
                let mut msg: String = joined("Failed to open serial port ", port_name);
                msg.append(": ");
                msg.append(e.as_str());
                self.last_error = Some(msg.clone());
                self.is_connected = false;
                Err(msg)
            },
        }
    }

    /// Disconnect from the active serial port.
    pub fn disconnect(&mut self)
        ensures
            !final(self).is_connected,
            final(self).last_error is None,
            final(self).port_name == old(self).port_name,
            final(self).baud_rate == old(self).baud_rate,
            final(self).sent_commands_count == old(self).sent_commands_count,
            final(self).last_sent_command == old(self).last_sent_command,
    {
        self.is_connected = false;
        self.last_error = None;
    }

    /// What is to be done with a T-Code command: written, with exactly one line
    /// feed behind it in place of the white space at its end, if the link is up.
    pub fn send_tcode(&mut self, command: &str, has_port: bool) -> (plan: SendPlan)
        ensures
            match plan {
                SendPlan::Idle => !old(self).is_connected,
                SendPlan::Fail(m) => old(self).is_connected && !has_port && m@
                    == "Serial port handle is not available"@,
                SendPlan::Write(payload) => old(self).is_connected && has_port && payload@
                    == trimmed_end(command@) + "\n"@,
            },
            final(self).is_connected == (old(self).is_connected && has_port),
            final(self).last_error == old(self).last_error,
            final(self).port_name == old(self).port_name,
            final(self).baud_rate == old(self).baud_rate,
            final(self).sent_commands_count == old(self).sent_commands_count,
            final(self).last_sent_command == old(self).last_sent_command,
    {
        if !self.is_connected {
            return SendPlan::Idle;
        }
        if !has_port {
            self.is_connected = false;
            return SendPlan::Fail("Serial port handle is not available".to_owned());
        }
        let mut payload: String = trim_end(command);
        payload.append("\n");
        SendPlan::Write(payload)
    }

    /// Accounts for a command that was written.
    pub fn sent(&mut self, command: &str)
        requires
            old(self).sent_commands_count < usize::MAX,
        ensures
            final(self).sent_commands_count == old(self).sent_commands_count + 1,
            text_of(final(self).last_sent_command) == Some(trimmed(command@)),
            final(self).is_connected == old(self).is_connected,
            final(self).last_error == old(self).last_error,
            final(self).port_name == old(self).port_name,
            final(self).baud_rate == old(self).baud_rate,
    {
        self.sent_commands_count += 1;
        self.last_sent_command = Some(trim(command));
    }

    /// Accounts for a command that could not be written. Where the line is
    /// broken the link goes down, which also clears the error.
    pub fn write_failed(&mut self, error: &str, line_broken: bool) -> (message: String)
        ensures
            message@ == "Serial write error: "@ + error@,
            line_broken ==> !final(self).is_connected && final(self).last_error is None,
            !line_broken ==> final(self).is_connected == old(self).is_connected && text_of(
                final(self).last_error,
            ) == Some(message@),
            final(self).port_name == old(self).port_name,
            final(self).baud_rate == old(self).baud_rate,
            final(self).sent_commands_count == old(self).sent_commands_count,
            final(self).last_sent_command == old(self).last_sent_command,
    {
        let message: String = joined("Serial write error: ", error);
        self.last_error = Some(message.clone());
        if line_broken {
            self.disconnect();
        }
        message
    }
}

/// What is reported of a port that did not open.
pub open spec fn open_failure(port_name: Seq<char>, reason: Seq<char>) -> Seq<char> {
    "Failed to open serial port "@ + port_name + ": "@ + reason
}

} // verus!
