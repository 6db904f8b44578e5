//! The batch queue, the panels, start-up and text.
use pulsar::batch::{
    is_video_extension, script_path_for, BatchJob, BatchJobConfig, BatchJobStatus,
    BatchProgressUpdate, BatchQueue, BatchWorker, ScanEntry,
};
use pulsar::device::DeviceType;
use pulsar::doctor::DoctorReport;
use pulsar::handy::HandyStatus;
use pulsar::paths::same_path;
use pulsar::panel::{
    batch_action, baud_label, broadcast_preview, choose_device, connected_label,
    enqueue_scenes, job_label, mode_change, reselect_port, selected_port_label, serial_action,
    serial_status, server_status, toggle_broadcast, typed_key, BatchAction, Health, LinkAction,
    StrokePreset,
};
use pulsar::serial::{DetectedSerialPort, PortKind};
use pulsar::startup::{
    advance_startup, endpoint_accepts_connections, ended_message, probe_timeout, retry_pause,
    select_role, startup_deadline, startup_remaining, ProbeReply, Role, StartupEvent,
    StartupPhase,
};
use pulsar::tcode::TCodeDispatcher;
use pulsar::text::{
    append_decimal, append_padded, append_signed, before_last, same_text, strip_text_suffix,
    trim, trim_end,
};

fn entry(path: &str, exists: bool) -> ScanEntry {
    let mut e = ScanEntry::new(path.to_string(), false, true);
    e.script_exists = exists;
    e
}

fn job(id: usize, path: &str) -> BatchJob {
    BatchJob {
        id,
        video_path: path.to_string(),
        output_path: script_path_for(path),
        status: BatchJobStatus::Queued,
    }
}

#[test]
fn test_batch_queue_lifecycle() {
    let mut queue = BatchQueue::new();
    assert_eq!(queue.jobs.len(), 0);
    let cfg = BatchJobConfig::default();
    let entries =
        vec![entry("/tmp/fs_hub_batch_test/clip1.mp4", false), entry("/tmp/fs_hub_batch_test/clip2.mkv", false)];
    let (added, dirs) = queue.scan_directory(&entries, false, &cfg);
    assert_eq!(added, 2);
    assert!(dirs.is_empty());
    assert_eq!(queue.jobs.len(), 2);

    let (total, queued, _, _, _, _) = queue.stats();
    assert_eq!(total, 2);
    assert_eq!(queued, 2);
}

#[test]
fn test_batch_worker_execution() {
    let mut worker = BatchWorker::new();
    assert!(!worker.is_active());
    worker.start(vec![job(1, "/tmp/nonexistent_or_empty.mp4")], &BatchJobConfig::default());
    assert!(worker.is_active());

    let mut received_completed_signal = false;
    let mut received_job_event = false;
    let mut updates = Vec::new();
    while worker.next_output().is_some() {
        if let Some(started) = worker.begin_job(false) {
            updates.push(started);
            let failed = Err("Zero video frames decoded".to_string());
            updates.push(worker.finish_job(failed, 0));
        }
    }
    updates.push(worker.complete());
    for msg in updates {
        match msg {
            BatchProgressUpdate::JobStarted { id } => {
                assert_eq!(id, 1);
                received_job_event = true;
            }
            BatchProgressUpdate::JobFailed { id, error } => {
                assert_eq!(id, 1);
                assert!(!error.is_empty());
            }
            BatchProgressUpdate::AllJobsCompleted => {
                received_completed_signal = true;
            }
            _ => {}
        }
    }
    assert!(received_job_event);
    assert!(received_completed_signal);
    worker.stop();
    assert!(!worker.is_active());
}

#[test]
fn test_batch_worker_with_invalid_model_path() {
    let mut worker = BatchWorker::new();
    let mut cfg = BatchJobConfig::default();
    cfg.model_path = Some("definitely_nonexistent_model.onnx".to_string());
    worker.start(vec![job(42, "nonexistent.mp4")], &cfg);

    let mut got_failed = false;
    let mut got_all_completed = false;
    for msg in worker.detector_failed("no such file", &vec![false]) {
        match msg {
            BatchProgressUpdate::JobFailed { id, error } => {
                assert_eq!(id, 42);
                assert!(error.contains("Failed to initialize neural detector"));
                got_failed = true;
            }
            BatchProgressUpdate::AllJobsCompleted => got_all_completed = true,
            _ => {}
        }
    }
    assert!(got_failed);
    assert!(got_all_completed);
    worker.stop();
}

#[test]
fn settings_have_their_numbers() {
    let cfg = BatchJobConfig::default();
    assert_eq!(cfg.conf_bits, 0.35f32.to_bits());
    assert_eq!(cfg.fps_bits, 30.0f64.to_bits());
    assert!(cfg.multi_axis);
}

#[test]
fn videos_are_known_by_their_extension() {
    for ext in ["mp4", "MKV", "webm", "avi", "mov", "m4v", "WmV"] {
        assert!(is_video_extension(ext));
    }
    assert!(!is_video_extension("mp3"));
    assert!(!is_video_extension(""));
    assert_eq!(script_path_for("/a/clip.tar.mp4"), "/a/clip.tar.funscript");
    assert_eq!(script_path_for("clip"), "clip.funscript");
    assert_eq!(ScanEntry::new("/a/.mp4".to_string(), false, true).extension, "");
    assert_eq!(ScanEntry::new("/a/b.MP4".to_string(), false, true).extension, "MP4");
}

#[test]
fn a_scan_enqueues_what_is_missing() {
    let mut queue = BatchQueue::new();
    let entries = vec![
        entry("/v/a.mp4", true),
        entry("/v/b.mp4", false),
        entry("/v/b.mp4", false),
        entry("/v/c.txt", false),
        ScanEntry::new("/v/sub".to_string(), true, false),
    ];
    let (added, dirs) = queue.scan_directory(&entries, true, &BatchJobConfig::default());
    assert_eq!(added, 1);
    assert_eq!(dirs, vec!["/v/sub"]);
    assert_eq!(queue.jobs[0].output_path, "/v/b.funscript");
    let all = BatchJobConfig { overwrite: true, ..BatchJobConfig::default() };
    let (added, dirs) = queue.scan_directory(&entries, false, &all);
    assert_eq!(added, 1);
    assert!(dirs.is_empty());
    let ids: Vec<usize> = queue.jobs.iter().map(|j| j.id).collect();
    assert_eq!(ids, vec![0, 1]);
    queue.clear();
    assert_eq!(queue.next_job_id, 0);
}

#[test]
fn reports_reach_their_job() {
    let mut queue = BatchQueue::new();
    queue.enqueue("a.mp4".to_string(), "a".to_string());
    queue.enqueue("b.mp4".to_string(), "b".to_string());
    queue.enqueue("c.mp4".to_string(), "c".to_string());
    assert!(!queue.enqueue("c.mp4".to_string(), "d".to_string()));
    queue.apply_update(BatchProgressUpdate::JobStarted { id: 1 });
    queue.apply_update(BatchProgressUpdate::JobProgress { id: 1, progress_bits: 5, frame: 30 });
    assert!(matches!(
        queue.jobs[1].status,
        BatchJobStatus::Processing { progress_bits: 5, current_frame: 30 }
    ));
    queue.apply_update(BatchProgressUpdate::JobFailed { id: 0, error: "x".to_string() });
    let done = BatchProgressUpdate::JobCompleted { id: 2, actions_count: 9, elapsed_bits: 0 };
    queue.apply_update(done);
    queue.jobs[1].status = BatchJobStatus::Skipped { reason: "y".to_string() };
    assert_eq!(queue.stats(), (3, 0, 0, 1, 1, 1));
    assert!(queue.apply_update(BatchProgressUpdate::JobStarted { id: 77 }).is_none());
    assert_eq!(
        queue.apply_update(BatchProgressUpdate::AllJobsCompleted),
        Some("Batch Queue execution complete!".to_string())
    );
}

#[test]
fn a_worker_passes_over_finished_jobs() {
    let mut worker = BatchWorker::new();
    worker.start(vec![job(1, "a.mp4"), job(2, "b.mp4")], &BatchJobConfig::default());
    assert_eq!(worker.next_output(), Some("a.funscript".to_string()));
    assert!(worker.begin_job(true).is_none());
    assert!(matches!(worker.begin_job(false), Some(BatchProgressUpdate::JobStarted { id: 2 })));
    assert!(matches!(
        worker.finish_job(Ok(12), 4),
        BatchProgressUpdate::JobCompleted { id: 2, actions_count: 12, elapsed_bits: 4 }
    ));
    assert!(worker.next_output().is_none());
    worker.start(vec![job(1, "a.mp4"), job(2, "b.mp4")], &BatchJobConfig::default());
    assert_eq!(worker.detector_failed("e", &vec![true, false]).len(), 3);
}

fn port(name: &str) -> DetectedSerialPort {
    DetectedSerialPort::new(name.to_string(), PortKind::Pci)
}

#[test]
fn serial_ports_are_chosen() {
    assert_eq!(selected_port_label(&vec![], "x"), "(No serial ports detected)");
    let ports = vec![port("a"), port("b")];
    assert_eq!(selected_port_label(&ports, "b"), "b (PCI Serial)");
    assert_eq!(selected_port_label(&ports, "z"), "z");
    let (selected, said) = reselect_port(&ports, "");
    assert_eq!(selected, "a");
    assert_eq!(said, "Found 2 serial communication port(s)");
    assert_eq!(reselect_port(&ports, "z").0, "z");
    assert_eq!(serial_action(false, ""), LinkAction::Disabled);
    assert_eq!(serial_action(false, "a"), LinkAction::Connect);
    assert_eq!(serial_action(true, "a"), LinkAction::Disconnect);
    assert_eq!(serial_status("a", 9600, &Ok(())), "Connected to a @ 9600 baud");
    assert_eq!(serial_status("a", 9600, &Err("e".to_string())), "Serial connection error: e");
    assert_eq!(baud_label(115200), "115200 baud (OSR2 / SR6 Standard)");
    assert_eq!(baud_label(9600), "9600 baud");
}

#[test]
fn the_broadcast_is_switched() {
    let mut d = TCodeDispatcher::default();
    let mut on = false;
    assert_eq!(toggle_broadcast(&mut d, &mut on, "h:1"), "Streaming T-Code v0.3 to UDP h:1");
    assert!(on && d.is_enabled);
    assert_eq!(d.target_addr, "h:1");
    assert_eq!(toggle_broadcast(&mut d, &mut on, "h:1"), "UDP Broadcast disconnected");
    assert!(!on && !d.is_enabled);
    assert_eq!(broadcast_preview(""), "L05000 I100\n");
    assert_eq!(broadcast_preview("x"), "x");
    assert_eq!(server_status(80, true), "VR Sync Server listening on port 80");
    assert_eq!(server_status(80, false), "Failed to bind port 80");
}

#[test]
fn devices_are_chosen_and_shown() {
    let (profile, said) = choose_device(DeviceType::Keon);
    assert_eq!(profile.name, "Fleshlight Keon");
    assert_eq!(said, "Active hardware profile: Fleshlight Keon (Reciprocating)");
    let mut status = HandyStatus::default();
    status.model = "H".to_string();
    status.last_ping_ms = 9;
    assert_eq!(connected_label(&status), "● Connected (H | FW:  | HW:  | 9ms ping)");
    assert_eq!(mode_change(true, false, true), Some(2));
    assert_eq!(mode_change(false, true, true), Some(3));
    assert_eq!(mode_change(false, true, false), None);
    assert_eq!(mode_change(true, true, true), None);
    assert_eq!(StrokePreset::Tip.range(), (40, 100));
    assert_eq!(StrokePreset::Full.range(), (0, 100));
}

fn report(violations: usize, inversions: usize) -> DoctorReport {
    DoctorReport {
        total_actions: 0,
        duration_ms: 0,
        min_pos: 0,
        max_pos: 0,
        speed_samples: 0,
        speed_violations_count: violations,
        timing_inversions_count: inversions,
        micro_jitter_count: 0,
        issues: vec![],
    }
}

#[test]
fn health_follows_the_report() {
    assert_eq!(Health::of(&report(0, 0)).summary(), "PERFECT");
    assert_eq!(Health::of(&report(1, 1)).summary(), "SPEED VIOLATIONS");
    assert_eq!(Health::of(&report(0, 1)).badge(), "ATTENTION - Timing Inversions or Anomalies");
}

#[test]
fn the_automation_panel_works_the_queue() {
    assert_eq!(typed_key("  "), None);
    assert_eq!(typed_key(" k"), Some(" k".to_string()));
    let mut queue = BatchQueue::new();
    let v = vec!["a".to_string(), "a".to_string(), "b".to_string()];
    let o = vec!["x".to_string(), "y".to_string(), "z".to_string()];
    assert_eq!(
        enqueue_scenes(&mut queue, &v, &o),
        "Enqueued 2 scenes from Stash into Batch Queue!"
    );
    assert_eq!(job_label(&BatchJobStatus::Queued, 0), "QUEUED");
    let running = BatchJobStatus::Processing { progress_bits: 0, current_frame: 0 };
    assert_eq!(job_label(&running, 42), "RUNNING (42%)");
    let done = BatchJobStatus::Completed { actions_count: 7, elapsed_bits: 0 };
    assert_eq!(job_label(&done, 0), "DONE (7 pts)");
    assert_eq!(job_label(&BatchJobStatus::Failed { error: "e".to_string() }, 0), "ERR: e");
    assert_eq!(job_label(&BatchJobStatus::Skipped { reason: "r".to_string() }, 0), "SKIP: r");
    assert_eq!(batch_action(true, 0), BatchAction::Stop);
    assert_eq!(batch_action(false, 1), BatchAction::Start);
    assert_eq!(batch_action(false, 0), BatchAction::Nothing);
}

#[test]
fn roles_are_told_apart() {
    assert_eq!(select_role(None, 1), Ok(Role::Client));
    assert_eq!(select_role(Some("play"), 9), Ok(Role::Client));
    assert_eq!(select_role(Some("engine"), 2), Ok(Role::Engine));
    assert_eq!(select_role(Some("__pulsar-engine"), 2), Ok(Role::Engine));
    assert_eq!(select_role(Some("__pulsar-worker"), 2), Ok(Role::Worker));
    assert!(select_role(Some("engine"), 3).unwrap_err().starts_with("engine role"));
    assert!(select_role(Some("worker"), 3).unwrap_err().starts_with("worker role"));
}

#[test]
fn waiting_shares_one_deadline() {
    let deadline = startup_deadline(1000).unwrap();
    assert_eq!(deadline, 11000);
    assert_eq!(startup_deadline(u64::MAX), Err("engine startup timeout overflow".to_string()));
    assert_eq!(startup_remaining(deadline, 10999), Ok(1));
    assert!(startup_remaining(deadline, 11000).is_err());
    assert_eq!(probe_timeout(deadline, 1000), Ok(250));
    assert_eq!(probe_timeout(deadline, 10900), Ok(100));
    assert!(probe_timeout(deadline, 12000).is_err());
    assert_eq!(retry_pause(deadline, 1000), Ok(40));
    assert_eq!(retry_pause(deadline, 10990), Ok(10));
    assert!(retry_pause(deadline, 11000).is_err());
    assert_eq!(endpoint_accepts_connections(ProbeReply::Connected), Ok(true));
    assert_eq!(endpoint_accepts_connections(ProbeReply::Refused), Ok(false));
    assert_eq!(endpoint_accepts_connections(ProbeReply::NotFound), Ok(false));
    assert!(endpoint_accepts_connections(ProbeReply::Failed).is_err());
}

#[test]
fn an_engine_is_started_once() {
    let mut phase = StartupPhase::FirstProbe;
    let mut spawned = 0;
    for event in [
        StartupEvent::No,
        StartupEvent::Yes,
        StartupEvent::No,
        StartupEvent::No,
        StartupEvent::Yes,
        StartupEvent::No,
        StartupEvent::Yes,
        StartupEvent::No,
        StartupEvent::No,
    ] {
        phase = advance_startup(phase, event);
        if phase == StartupPhase::Spawn {
            spawned += 1;
        }
    }
    assert_eq!(spawned, 1);
    assert_eq!(phase, StartupPhase::Ended);
    assert_eq!(
        ended_message("1"),
        "engine startup exited with 1; run 'pulsar engine' to see its diagnostic"
    );
    assert_eq!(
        advance_startup(StartupPhase::LastProbe, StartupEvent::Yes),
        StartupPhase::Ready
    );
}

#[test]
fn numbers_and_words() {
    let mut s = String::new();
    append_decimal(&mut s, 0);
    append_decimal(&mut s, 90210);
    append_signed(&mut s, i64::MIN);
    append_padded(&mut s, 7, 3);
    assert_eq!(s, "090210-9223372036854775808007");
    assert!(same_text("añb", "añb") && !same_text("a", "b"));
    assert_eq!(strip_text_suffix("clip.roll", ".roll"), Some("clip".to_string()));
    assert_eq!(strip_text_suffix("clip", ".roll"), None);
    assert_eq!(before_last("a.b.c", '.'), Some("a.b".to_string()));
    assert_eq!(before_last("abc", '.'), None);
    assert_eq!(trim(" \t é \n"), "é");
    assert_eq!(trim_end(" x \u{3000}"), " x");
}

#[test]
fn one_video_has_one_job_however_its_path_is_written() {
    let mut queue = BatchQueue::new();
    let mut put = |path: &str| queue.enqueue(path.to_string(), "out".to_string());
    assert!(put("/x/a.mp4"));
    for same in ["/x//a.mp4", "/x/./a.mp4", "/x/a.mp4/", "//x/a.mp4"] {
        assert!(!put(same), "{same}");
    }
    for other in ["x/a.mp4", "./x/a.mp4", "/x/../x/a.mp4", "/x/a.MP4"] {
        assert!(put(other), "{other}");
    }
    assert!(!put("x//a.mp4"));
    assert_eq!(queue.jobs.len(), 5);
    assert!(same_path("a/./b/", "a/b") && !same_path("a/b", "./a/b") && same_path("", ""));
    let written = ["/x//a", "/x/a", "x", "./x", "a/.", "a", ".", "", "/", "//", "a/..", "./.", "/."];
    for a in written {
        for b in written {
            let same = std::path::Path::new(a) == std::path::Path::new(b);
            assert_eq!(same_path(a, b), same, "{a} {b}");
        }
    }
}
