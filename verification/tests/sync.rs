//! Links to devices and servers.
use pulsar::buttplug::{
    after_read, connection_failed, ButtplugCommand, ButtplugConfig, ButtplugDispatcher,
    ButtplugEvent, ButtplugProtocol, LinkRead, LinkStep,
};
use pulsar::handy::{
    connection_outcome, drain_step, parse_connected, parse_info, DrainStep, HandyCommand,
    HandyDispatcher, HandyEvent, HandyHttpClient, HandyStatus,
};
use pulsar::http::HttpMethod;
use pulsar::serial::{DetectedSerialPort, PortKind, SendPlan, SerialDispatcher};
use pulsar::stash::{
    build_missing_scenes_query, created_tag, found_tag, parse_reply, scan_accepted, scenes_in,
    version_in, StashClient, StashConfig, StashError,
};
use pulsar::tcode::{format_tcode_v03, TCodeDispatcher};
use serde_json::Value;

fn number(x: f64) -> Value {
    Value::from(x)
}

fn tcode_value(pos: f32) -> u32 {
    ((pos / 100.0) * 9999.0).round().clamp(0.0, 9999.0) as u32
}

#[test]
fn test_stash_query_serialization() {
    let payload = build_missing_scenes_query(25);
    assert!(payload["query"].as_str().unwrap().contains("findScenes"));
    assert_eq!(payload["variables"]["filter"]["per_page"], 25);
    assert_eq!(payload["variables"]["scene_filter"]["interactive"]["value"], false);
}

#[test]
fn test_buttplug_handshake_serialization() {
    let msg = ButtplugProtocol::format_server_info(1, "Pulsar Test");
    assert!(msg.contains("RequestServerInfo"));
    assert!(msg.contains("Pulsar Test"));
    assert!(msg.contains("\"MessageVersion\":3"));
}

#[test]
fn test_buttplug_linear_cmd_generation() {
    let msg = ButtplugProtocol::format_linear_cmd(42, 0, 150, number(0.75));
    assert!(msg.contains("LinearCmd"));
    assert!(msg.contains("\"DeviceIndex\":0"));
    assert!(msg.contains("\"Duration\":150"));
    assert!(msg.contains("\"Position\":0.75"));
}

#[test]
fn test_buttplug_vibrate_cmd_generation() {
    let msg = ButtplugProtocol::format_vibrate_cmd(99, 1, number(0.65));
    assert!(msg.contains("ScalarCmd"));
    assert!(msg.contains("\"DeviceIndex\":1"));
    assert!(msg.contains("\"Scalar\":0.65"));
    assert!(msg.contains("\"ActuatorType\":\"Vibrate\""));
}

#[test]
fn test_buttplug_parse_server_info_and_devices() {
    let raw = r#"[
        {
            "ServerInfo": {
                "Id": 1,
                "ServerName": "Intiface Engine",
                "MessageVersion": 3,
                "MaxPingTime": 0
            }
        },
        {
            "DeviceAdded": {
                "Id": 0,
                "DeviceIndex": 3,
                "DeviceName": "The Handy",
                "DeviceMessages": {
                    "LinearCmd": [{"StepCount": 100}]
                }
            }
        }
    ]"#;

    let events = ButtplugProtocol::parse_messages(raw);
    assert_eq!(events.len(), 2);

    if let ButtplugEvent::Connected { server_name } = &events[0] {
        assert_eq!(server_name, "Intiface Engine");
    } else {
        panic!("Expected Connected event");
    }

    if let ButtplugEvent::DeviceAdded(dev) = &events[1] {
        assert_eq!(dev.index, 3);
        assert_eq!(dev.name, "The Handy");
        assert!(dev.can_linear);
        assert!(!dev.can_vibrate);
    } else {
        panic!("Expected DeviceAdded event");
    }
}

#[test]
fn test_handy_dispatcher_creation() {
    let disp = HandyDispatcher::new();
    assert!(!disp.status.is_connected);
    assert!(!disp.is_connecting);
}

#[test]
fn test_serial_dispatcher_creation() {
    let dispatcher = SerialDispatcher::new();
    assert!(!dispatcher.is_connected);
    assert_eq!(dispatcher.baud_rate, 115200);
    assert_eq!(dispatcher.sent_commands_count, 0);
}

#[test]
fn test_send_tcode_when_disconnected() {
    let mut dispatcher = SerialDispatcher::new();
    assert!(matches!(dispatcher.send_tcode("L05000", false), SendPlan::Idle));
    assert_eq!(dispatcher.sent_commands_count, 0);
}

#[test]
fn test_supported_baud_rates() {
    assert!(SerialDispatcher::SUPPORTED_BAUD_RATES.contains(&115200));
    assert!(SerialDispatcher::SUPPORTED_BAUD_RATES.contains(&230400));
}

#[test]
fn test_tcode_v03_formatting() {
    let mut values: Vec<Option<u32>> = vec![None; 7];
    values[0] = Some(tcode_value(50.0));
    values[3] = Some(tcode_value(100.0));
    values[4] = Some(tcode_value(0.0));
    let tcode = format_tcode_v03(&values, Some(50));
    assert!(tcode.contains("L05000"));
    assert!(tcode.contains("R19999"));
    assert!(tcode.contains("R00000"));
    assert!(tcode.contains("I50\n"));
    assert_eq!(tcode, "L05000 R00000 R19999 I50\n");
}

#[test]
fn test_tcode_dispatcher_creation() {
    let dispatcher = TCodeDispatcher::new("127.0.0.1:8888");
    assert_eq!(dispatcher.target_addr, "127.0.0.1:8888");
    assert!(!dispatcher.is_enabled);
}

#[test]
fn a_line_without_axes_is_bare() {
    let none: Vec<Option<u32>> = vec![None; 7];
    assert_eq!(format_tcode_v03(&none, None), "\n");
    assert_eq!(format_tcode_v03(&none, Some(9)), "I9\n");
}

#[test]
fn a_line_is_sent_once() {
    let mut d = TCodeDispatcher::default();
    assert!(!d.send("L05000\n", true));
    d.is_enabled = true;
    assert!(!d.send("L05000\n", false));
    assert!(d.send("L05000\n", true));
    assert!(!d.is_due("L05000\n"));
    assert!(d.is_due("L05001\n"));
}

#[test]
fn ports_are_labelled_by_what_is_known() {
    let label = |kind| DetectedSerialPort::new("tty0".to_string(), kind).label;
    let usb = |p: Option<&str>, m: Option<&str>| PortKind::Usb {
        product: p.map(|s| s.to_string()),
        manufacturer: m.map(|s| s.to_string()),
    };
    assert_eq!(label(usb(Some("OSR"), Some("X"))), "tty0 (OSR)");
    assert_eq!(label(usb(None, Some("X"))), "tty0 (X)");
    assert_eq!(label(usb(None, None)), "tty0 (USB Device)");
    assert_eq!(label(PortKind::Pci), "tty0 (PCI Serial)");
    assert_eq!(label(PortKind::Bluetooth), "tty0 (Bluetooth)");
    assert_eq!(label(PortKind::Unknown), "tty0");
}

#[test]
fn a_serial_link_goes_up_and_down() {
    let mut d = SerialDispatcher::new();
    let refused = d.connect("tty0", 9600, Some("busy".to_string()));
    assert_eq!(refused, Err("Failed to open serial port tty0: busy".to_string()));
    assert!(!d.is_connected);
    assert_eq!(d.connect("tty0", 9600, None), Ok(()));
    assert_eq!(d.baud_rate, 9600);
    match d.send_tcode("L05000 \n\n", true) {
        SendPlan::Write(payload) => assert_eq!(payload, "L05000\n"),
        _ => panic!("not written"),
    }
    d.sent(" L05000\n");
    assert_eq!(d.last_sent_command, Some("L05000".to_string()));
    assert_eq!(d.write_failed("late", false), "Serial write error: late");
    assert!(d.is_connected);
    d.write_failed("gone", true);
    assert!(!d.is_connected);
    assert_eq!(d.last_error, None);
    d.is_connected = true;
    match d.send_tcode("x", false) {
        SendPlan::Fail(m) => assert_eq!(m, "Serial port handle is not available"),
        _ => panic!("not failed"),
    }
}

#[test]
fn requests_carry_the_key() {
    let client = HandyHttpClient::new();
    let req = client.check_connected(" key ");
    assert!(matches!(req.method, HttpMethod::Get));
    assert!(req.url.ends_with("/connected"));
    assert_eq!(req.headers[0], ("X-Connection-Key".to_string(), "key".to_string()));
    let mode = client.set_mode("key", 3);
    assert!(matches!(mode.method, HttpMethod::Put));
    assert_eq!(mode.body, "{\"mode\":3}");
    let xpt = client.send_hdsp_xpt("key", number(12.5), 3);
    let body: Value = serde_json::from_str(&xpt.body).unwrap();
    assert_eq!(body["position"], 12.5);
    assert_eq!(body["duration"], 10);
    assert_eq!(body["immediateResponse"], false);
    assert!(client.stop("key").url.ends_with("/hamp/stop"));
    assert!(client.get_info("key", true).unwrap().url.ends_with("/info"));
    assert!(client.get_info("key", false).is_none());
}

#[test]
fn replies_of_the_device_are_read() {
    assert_eq!(parse_connected("{\"connected\":true}"), Ok(true));
    assert_eq!(parse_connected("{\"connected\":1}"), Ok(false));
    assert_eq!(parse_connected("{}"), Ok(false));
    assert!(parse_connected("{").is_err());
    let info = parse_info("{\"model\":\"H01\",\"fwVersion\":\"3.2\"}").unwrap();
    assert!(info.is_connected);
    assert_eq!(info.model, "H01");
    assert_eq!(info.fw_version, "3.2");
    assert_eq!(info.hw_version, "Unknown");
    assert_eq!(info.branch, "release");
    assert_eq!(info.mode, 3);
    assert!(parse_info("nope").is_err());
}

#[test]
fn a_connection_check_has_three_outcomes() {
    let online = parse_info("{}").unwrap();
    let (event, stream) = connection_outcome(Ok(online), 42);
    assert!(stream);
    match event {
        HandyEvent::Connected { status } => assert_eq!(status.last_ping_ms, 42),
        _ => panic!("not connected"),
    }
    let (event, stream) = connection_outcome(Ok(HandyStatus::default()), 42);
    assert!(!stream);
    assert!(matches!(event, HandyEvent::Disconnected { .. }));
    let (event, _) = connection_outcome(Err("no route".to_string()), 42);
    match event {
        HandyEvent::Error { message } => {
            assert_eq!(message, "Connection check failed: no route")
        }
        _ => panic!("no error"),
    }
}

#[test]
fn a_dispatcher_follows_its_events() {
    let mut d = HandyDispatcher::new();
    assert!(d.connect("  ").is_none());
    assert_eq!(d.last_error, Some("Connection key cannot be empty".to_string()));
    assert!(matches!(d.connect(" k "), Some(HandyCommand::CheckConnection { key }) if key == "k"));
    assert!(d.is_connecting);
    d.apply_event(HandyEvent::Connected { status: parse_info("{}").unwrap() });
    assert!(d.status.is_connected && !d.is_connecting);
    assert!(d.stream_position("k", true, 10, true, 0, 100).is_none());
    match d.stream_position("k", true, 10, false, 7, 3) {
        Some(HandyCommand::SendPosition { position_pct, duration_ms, .. }) => {
            assert_eq!((position_pct, duration_ms), (7, 20))
        }
        _ => panic!("not streamed"),
    }
    assert!(d.stream_position("k", false, 99, false, 7, 3).is_none());
    assert!(matches!(d.set_mode("k", 2), HandyCommand::SetMode { mode: 2, .. }));
    d.apply_event(HandyEvent::PositionAck { position: 1 });
    assert!(d.status.is_connected);
    d.apply_event(HandyEvent::Error { message: "late".to_string() });
    assert_eq!(d.last_error, Some("late".to_string()));
    assert!(matches!(d.disconnect("k"), HandyCommand::Stop { .. }));
    assert!(!d.status.is_connected);
    d.apply_event(HandyEvent::Disconnected { reason: "off".to_string() });
    assert_eq!(d.last_error, Some("off".to_string()));
}

#[test]
fn newer_positions_replace_older_ones() {
    let pos = HandyCommand::SendPosition { key: String::new(), position_pct: 0, duration_ms: 0 };
    assert_eq!(drain_step(&pos), DrainStep::Replace);
    let stop = HandyCommand::Stop { key: String::new() };
    assert_eq!(drain_step(&stop), DrainStep::Interrupt);
}

fn device_message(index: u32, caps: &str) -> String {
    format!(
        "[{{\"DeviceAdded\":{{\"DeviceIndex\":{index},\"DeviceName\":\"d{index}\",\"DeviceMessages\":{{\"{caps}\":[]}}}}}}]"
    )
}

fn known(caps: &[(u32, &str)]) -> ButtplugDispatcher {
    let mut d = ButtplugDispatcher::new();
    for (index, cap) in caps {
        for event in ButtplugProtocol::parse_messages(&device_message(*index, cap)) {
            d.apply_event(&event);
        }
    }
    d
}

#[test]
fn events_of_every_kind_are_parsed() {
    let raw = "[{\"DeviceList\":{\"Devices\":[{\"DeviceIndex\":1,\"DeviceName\":\"a\",\"DeviceMessages\":{\"ScalarCmd\":[]}}]}},{\"DeviceRemoved\":{\"DeviceIndex\":1}},{\"Error\":{}},{\"Ok\":{}}]";
    let events = ButtplugProtocol::parse_messages(raw);
    assert_eq!(events.len(), 3);
    assert!(matches!(&events[0], ButtplugEvent::DeviceAdded(d) if d.can_vibrate));
    assert!(matches!(&events[1], ButtplugEvent::DeviceRemoved { index: 1 }));
    assert!(matches!(&events[2], ButtplugEvent::Error(m) if m == "Unknown error"));
    assert!(ButtplugProtocol::parse_messages("{}").is_empty());
    assert!(ButtplugProtocol::parse_messages("not json").is_empty());
}

#[test]
fn devices_are_known_until_they_leave() {
    let mut d = known(&[(7, "LinearCmd"), (2, "ScalarCmd"), (4, "LinearCmd")]);
    assert_eq!(d.targets(true), vec![4, 7]);
    assert_eq!(d.targets(false), vec![2]);
    let stops = |d: &ButtplugDispatcher| -> Vec<(u32, bool)> {
        d.stop_targets().iter().map(|t| (t.index, t.linear)).collect()
    };
    assert_eq!(stops(&d), vec![(2, false), (4, true), (7, true)]);
    d.apply_event(&ButtplugEvent::DeviceRemoved { index: 2 });
    assert_eq!(stops(&d), vec![(4, true), (7, true)]);
    d.disconnect();
    assert!(stops(&d).is_empty());
}

#[test]
fn messages_are_numbered() {
    let mut d = known(&[(4, "LinearCmd"), (6, "ScalarCmd")]);
    let (info, list, scan) = d.handshake("Pulsar");
    assert!(info.contains("\"Id\":1") && info.contains("RequestServerInfo"));
    assert!(list.contains("\"Id\":2") && list.contains("RequestDeviceList"));
    assert!(scan.contains("\"Id\":3") && scan.contains("StartScanning"));
    let stops = d.wire_messages(ButtplugCommand::StopAll, number(0.0));
    assert_eq!(stops.len(), 2);
    assert!(stops[0].contains("\"Id\":4") && stops[0].contains("\"Duration\":500"));
    assert!(stops[1].contains("\"DeviceIndex\":6") && stops[1].contains("\"Scalar\":0.0"));
    let cmd = ButtplugCommand::Vibrate { device_index: 9, speed: number(0.5) };
    let msg = d.wire_messages(cmd, number(0.0));
    assert_eq!(msg.len(), 1);
    assert!(msg[0].contains("\"Id\":5") && msg[0].contains("\"DeviceIndex\":9"));
    let cmd = ButtplugCommand::Linear { device_index: 4, duration_ms: 80, position: number(0.25) };
    assert!(d.wire_messages(cmd, number(0.0))[0].contains("\"Position\":0.25"));
    d.disconnect();
    assert!(d.wire_messages(ButtplugCommand::StopAll, number(0.0)).is_empty());
    assert_eq!(d.take_number(), 8);
}

#[test]
fn the_link_goes_on_after_a_timeout() {
    assert_eq!(after_read(LinkRead::Text), LinkStep::TakeIn);
    assert_eq!(after_read(LinkRead::Other), LinkStep::GoOn);
    assert_eq!(after_read(LinkRead::TimedOut), LinkStep::Wait(5));
    assert_eq!(after_read(LinkRead::Closed), LinkStep::End);
    assert_eq!(after_read(LinkRead::Failed), LinkStep::End);
    assert!(matches!(connection_failed("x"), ButtplugEvent::Error(m) if m == "Connection failed: x"));
    assert_eq!(ButtplugConfig::default().server_url, "ws://127.0.0.1:12345");
}

#[test]
fn stash_requests_carry_query_and_key() {
    let mut config = StashConfig::default();
    config.api_key = Some(" secret ".to_string());
    let client = StashClient::new(config);
    let req = client.find_scenes_missing_scripts(5);
    assert_eq!(req.url, "http://localhost:9999/graphql");
    assert_eq!(req.headers[1], ("ApiKey".to_string(), "secret".to_string()));
    let body: Value = serde_json::from_str(&req.body).unwrap();
    assert_eq!(body["variables"]["filter"]["per_page"], 5);
    let scan = client.trigger_metadata_scan(&vec!["/a".to_string(), "/b".to_string()]);
    let body: Value = serde_json::from_str(&scan.body).unwrap();
    assert_eq!(body["variables"]["input"]["paths"][1], "/b");
    assert!(client.attach_tag("1", "").is_none());
    let attach = client.attach_tag("1", "t").unwrap();
    let body: Value = serde_json::from_str(&attach.body).unwrap();
    assert_eq!(body["variables"]["input"]["tag_ids"][0], "t");
    let tag: Value = serde_json::from_str(&client.tag_scene("x").body).unwrap();
    assert_eq!(tag["variables"]["name"], "x");
    let make: Value = serde_json::from_str(&client.create_tag("x").body).unwrap();
    assert_eq!(make["variables"]["input"]["name"], "x");
    let blank = StashClient::new(StashConfig { api_key: Some("  ".to_string()), ..StashConfig::default() });
    assert_eq!(blank.test_connection().headers.len(), 1);
}

#[test]
fn stash_replies_are_read() {
    let data = parse_reply("{\"data\":{\"version\":{\"version\":\"v0.2\"}}}").unwrap();
    assert_eq!(version_in(&data), "v0.2");
    let none = parse_reply("{}").unwrap();
    assert!(none.is_null());
    assert_eq!(version_in(&none), "Unknown");
    assert_eq!(scenes_in(&none), Value::Array(vec![]));
    assert!(scan_accepted(&none));
    let refused = parse_reply("{\"data\":{\"metadataScan\":false}}").unwrap();
    assert!(!scan_accepted(&refused));
    let scenes = parse_reply("{\"data\":{\"findScenes\":{\"scenes\":[{\"id\":\"7\"}]}}}").unwrap();
    assert_eq!(scenes_in(&scenes)[0]["id"], "7");
    let tags = parse_reply("{\"data\":{\"findTags\":{\"tags\":[{\"id\":\"3\"}]}}}").unwrap();
    assert_eq!(found_tag(&tags), Some("3".to_string()));
    assert_eq!(found_tag(&none), None);
    let made = parse_reply("{\"data\":{\"tagCreate\":{\"id\":\"9\"}}}").unwrap();
    assert_eq!(created_tag(&made), "9");
    assert_eq!(created_tag(&none), "");
    match parse_reply("{\"errors\":[\"bad\"]}") {
        Err(StashError::Reported(m)) => {
            assert_eq!(m, "Stash GraphQL returned errors: [\"bad\"]")
        }
        _ => panic!("no error"),
    }
    assert!(matches!(parse_reply("<html>"), Err(StashError::BadReply(_))));
}

#[test]
fn a_serial_link_sends_a_command_as_it_is() {
    let mut d = SerialDispatcher::new();
    assert!(d.connect("tty0", 115200, None).is_ok());
    let values = vec![Some(12), None, Some(10000), None, None, Some(0), None];
    for line in [
        format_tcode_v03(&values, Some(40)),
        format_tcode_v03(&values, None),
        format_tcode_v03(&vec![None; 7], None),
    ] {
        assert_eq!(line.matches('\n').count(), 1);
        match d.send_tcode(&line, true) {
            SendPlan::Write(payload) => assert_eq!(payload, line),
            other => panic!("{:?}", other),
        }
    }
    assert_eq!(format_tcode_v03(&values, Some(40)), "L00012 L29999 R20000 I40\n");
}
