use shield_optimizer::adb::{combined_output, partition_by_outcome, text_says, AdbOutput};
use shield_optimizer::install::{
    adb_status, install_adb, network_serials, reconnect_ok, restart_adb, restart_message,
    restart_report, start_output_ok, DeviceEntry, RestartAction, RestartLog, RestartStep,
};
use shield_optimizer::scan::{
    adb_connect_ok, connect_target, next_connect_step, no_gateway_result, record_connect,
    scan_message, scan_network, scan_report, subnet_label, ConnectStep, ScanAction, ScanLog,
    ScanStep,
};

fn out(stdout: &str, stderr: &str) -> AdbOutput {
    AdbOutput { stdout: stdout.to_string(), stderr: stderr.to_string() }
}

fn strings(v: &[&str]) -> Vec<String> {
    v.iter().map(|s| s.to_string()).collect()
}

#[test]
fn status_reports_probe_output_or_error() {
    let ok = adb_status(Some("/usr/bin/adb".to_string()), Ok(out("List of devices attached\n", "warn")));
    assert!(ok.available);
    assert_eq!(ok.path, Some("/usr/bin/adb".to_string()));
    assert_eq!(ok.last_probe, Some("List of devices attached\n".to_string()));

    let err = adb_status(None, Err("adb not found".to_string()));
    assert!(!err.available);
    assert_eq!(err.path, None);
    assert_eq!(err.last_probe, None);
}

#[test]
fn install_reports_path_or_error() {
    let ok = install_adb(Ok("/data/platform-tools/adb".to_string()));
    assert!(ok.ok);
    assert_eq!(ok.path, Some("/data/platform-tools/adb".to_string()));
    assert_eq!(ok.message, "Installed platform-tools to /data/platform-tools/adb");

    let err = install_adb(Err("download failed".to_string()));
    assert!(!err.ok);
    assert_eq!(err.path, None);
    assert_eq!(err.message, "download failed");
}

#[test]
fn combined_output_is_stdout_then_stderr() {
    assert_eq!(combined_output(&out("a\n", "b")), "a\nb");
}

#[test]
fn says_ignores_letter_case() {
    assert!(text_says("ERROR: Cannot Bind", "error"));
    assert!(text_says("ERROR: Cannot Bind", "cannot"));
    assert!(!text_says("all fine", "error"));
}

#[test]
fn start_output_judged_by_text() {
    assert!(start_output_ok("* daemon not running; starting now at tcp:5037\n* daemon started successfully\n"));
    assert!(start_output_ok(""));
    assert!(!start_output_ok("ERROR: could not install *smartsocket* listener"));
    assert!(!start_output_ok("adb: Cannot bind to port"));
}

#[test]
fn network_serials_come_from_network_entries() {
    let devices = Ok(vec![
        DeviceEntry { serial: "192.168.1.5:5555".to_string(), is_network: true },
        DeviceEntry { serial: "ABC123".to_string(), is_network: false },
        DeviceEntry { serial: "10.0.0.2:5555".to_string(), is_network: true },
    ]);
    assert_eq!(network_serials(&devices), strings(&["192.168.1.5:5555", "10.0.0.2:5555"]));
    assert_eq!(network_serials(&Err("no daemon".to_string())), Vec::<String>::new());
}

#[test]
fn reconnect_judged_by_connected_to() {
    assert!(reconnect_ok(&Ok(out("Connected to 1.2.3.4:5555", ""))));
    assert!(reconnect_ok(&Ok(out("already connected to 1.2.3.4:5555\n", ""))));
    assert!(!reconnect_ok(&Ok(out("", "cannot connect to 1.2.3.4:5555"))));
    assert!(!reconnect_ok(&Err("exit status 1".to_string())));
}

#[test]
fn partition_keeps_order_and_every_item() {
    let items = strings(&["a", "b", "c", "d"]);
    let (yes, no) = partition_by_outcome(&items, &vec![true, false, true, false]);
    assert_eq!(yes, strings(&["a", "c"]));
    assert_eq!(no, strings(&["b", "d"]));
}

#[test]
fn restart_message_default_and_lists() {
    assert_eq!(restart_message(" \n\t", &vec![], &vec![]), "ADB server restarted.");
    assert_eq!(restart_message("\u{a0}* daemon started\n", &vec![], &vec![]), "* daemon started");
    assert_eq!(
        restart_message("", &strings(&["a:5555", "b:5555"]), &strings(&["c:5555"])),
        "ADB server restarted.\nReconnected: a:5555, b:5555\nCould not reconnect: c:5555 — try Scan Network or Connect IP."
    );
}

#[test]
fn restart_ok_needs_clean_start_and_all_reconnects() {
    let targets = strings(&["a:5555", "b:5555"]);
    let all = restart_report(&out("* daemon started successfully\n", ""), &targets, &vec![true, true]);
    assert!(all.ok);
    assert_eq!(all.message, "* daemon started successfully\nReconnected: a:5555, b:5555");

    let some = restart_report(&out("", ""), &targets, &vec![true, false]);
    assert!(!some.ok);
    assert_eq!(
        some.message,
        "ADB server restarted.\nReconnected: a:5555\nCould not reconnect: b:5555 — try Scan Network or Connect IP."
    );

    let noisy = restart_report(&out("", "error: protocol fault"), &vec![], &vec![]);
    assert!(!noisy.ok);
    assert_eq!(noisy.message, "error: protocol fault");
}

fn run_restart(
    devices: Result<Vec<DeviceEntry>, String>,
    start: Result<AdbOutput, String>,
    connect: impl Fn(&str) -> Result<AdbOutput, String>,
) -> (Vec<String>, shield_optimizer::install::RestartResult) {
    let mut calls = Vec::new();
    let mut devices = Some(devices);
    let mut start = Some(start);
    let mut log = RestartLog { devices: None, killed: false, start: None, connects: Vec::new() };
    loop {
        match restart_adb(&log) {
            RestartStep::Finish(r) => return (calls, r),
            RestartStep::Run(RestartAction::ListDevices) => {
                calls.push("devices".to_string());
                log.devices = devices.take();
            }
            RestartStep::Run(RestartAction::KillServer) => {
                calls.push("kill-server".to_string());
                log.killed = true;
            }
            RestartStep::Run(RestartAction::StartServer) => {
                calls.push("start-server".to_string());
                log.start = start.take();
            }
            RestartStep::Run(RestartAction::Connect(s)) => {
                calls.push(format!("connect {}", s));
                log.connects.push(connect(&s));
            }
        }
    }
}

fn listing() -> Result<Vec<DeviceEntry>, String> {
    Ok(vec![
        DeviceEntry { serial: "10.0.0.5:5555".to_string(), is_network: true },
        DeviceEntry { serial: "USB1".to_string(), is_network: false },
        DeviceEntry { serial: "10.0.0.6:5555".to_string(), is_network: true },
    ])
}

#[test]
fn restart_runs_devices_kill_start_then_reconnects_network_devices() {
    let (calls, r) = run_restart(listing(), Ok(out("* daemon started successfully\n", "")), |s| {
        if s == "10.0.0.5:5555" { Ok(out("connected to 10.0.0.5:5555", "")) } else { Ok(out("failed to connect", "")) }
    });
    assert_eq!(
        calls,
        strings(&["devices", "kill-server", "start-server", "connect 10.0.0.5:5555", "connect 10.0.0.6:5555"])
    );
    assert!(!r.ok);
    assert_eq!(
        r.message,
        "* daemon started successfully\nReconnected: 10.0.0.5:5555\nCould not reconnect: 10.0.0.6:5555 — try Scan Network or Connect IP."
    );
}

#[test]
fn restart_failed_start_reports_error_without_reconnecting() {
    let (calls, r) = run_restart(listing(), Err("adb: not found".to_string()), |_| Ok(out("connected to x", "")));
    assert_eq!(calls, strings(&["devices", "kill-server", "start-server"]));
    assert!(!r.ok);
    assert_eq!(r.message, "adb: not found");
}

#[test]
fn restart_with_unreadable_device_list_reconnects_nothing() {
    let (calls, r) = run_restart(
        Err("no daemon".to_string()),
        Ok(out("* daemon not running; starting now at tcp:5037\n* daemon started successfully\n", "")),
        |_| Ok(out("connected to x", "")),
    );
    assert_eq!(calls, strings(&["devices", "kill-server", "start-server"]));
    assert!(r.ok);
    assert_eq!(r.message, "* daemon not running; starting now at tcp:5037\n* daemon started successfully");
}

#[test]
fn no_gateway_report() {
    let r = no_gateway_result();
    assert_eq!(r.subnet, None);
    assert!(r.found.is_empty() && r.connected.is_empty() && r.failed.is_empty());
    assert_eq!(
        r.message,
        "Could not detect default gateway. Set SHIELD_OPTIMIZER_SUBNET=\"a.b.c\" to override, or use Connect IP."
    );
}

#[test]
fn subnet_label_and_target() {
    assert_eq!(subnet_label([192, 168, 42]), "192.168.42");
    assert_eq!(subnet_label([10, 0, 255]), "10.0.255");
    assert_eq!(connect_target("192.168.42.7"), "192.168.42.7:5555");
}

#[test]
fn connect_judged_by_text() {
    assert!(adb_connect_ok(&Ok(out("connected to 192.168.42.7:5555\n", ""))));
    assert!(adb_connect_ok(&Ok(out("already connected to 192.168.42.7:5555", ""))));
    assert!(!adb_connect_ok(&Ok(out("failed to connect to 192.168.42.7:5555", ""))));
    assert!(!adb_connect_ok(&Ok(out("Connected to x", "CANNOT resolve"))));
    assert!(!adb_connect_ok(&Ok(out("", ""))));
    assert!(!adb_connect_ok(&Err("exit 1".to_string())));
}

#[test]
fn connect_retries_once_after_a_pause() {
    assert!(matches!(next_connect_step(1, true), ConnectStep::Done { connected: true }));
    assert!(matches!(next_connect_step(1, false), ConnectStep::RetryAfterMillis(400)));
    assert!(matches!(next_connect_step(2, false), ConnectStep::Done { connected: false }));
    assert!(matches!(next_connect_step(2, true), ConnectStep::Done { connected: true }));
}

#[test]
fn scan_messages() {
    assert_eq!(
        scan_message("192.168.42", 0, 0),
        "No devices on 192.168.42.x answered on the ADB port. Make sure Network Debugging is enabled on your TV, or use Connect IP for newer Google TVs that need PIN pairing first."
    );
    assert_eq!(scan_message("10.0.0", 1, 1), "Scanned 10.0.0.x — found 1 device, connected 1.");
    assert_eq!(scan_message("10.0.0", 12, 0), "Scanned 10.0.0.x — found 12 devices, connected 0.");
}

#[test]
fn scan_report_splits_found_by_outcome() {
    let found = strings(&["10.0.0.2", "10.0.0.3", "10.0.0.9"]);
    let r = scan_report([10, 0, 0], &found, &vec![true, false, true]);
    assert_eq!(r.subnet, Some("10.0.0".to_string()));
    assert_eq!(r.found, found);
    assert_eq!(r.connected, strings(&["10.0.0.2", "10.0.0.9"]));
    assert_eq!(r.failed, strings(&["10.0.0.3"]));
    assert_eq!(r.message, "Scanned 10.0.0.x — found 3 devices, connected 2.");
}

fn run_scan(
    prefix: Option<[u8; 3]>,
    found: Vec<String>,
    connect: impl Fn(&str, usize) -> Result<AdbOutput, String>,
) -> (Vec<String>, shield_optimizer::scan::ScanResult) {
    let mut calls = Vec::new();
    let mut tries: std::collections::HashMap<String, usize> = std::collections::HashMap::new();
    let mut log = ScanLog { prefix: None, found: None, warmed: false, outcomes: Vec::new(), retrying: false };
    loop {
        match scan_network(&log) {
            ScanStep::Finish(r) => return (calls, r),
            ScanStep::Run(ScanAction::DetectSubnet) => {
                calls.push("detect".to_string());
                log.prefix = Some(prefix);
            }
            ScanStep::Run(ScanAction::Sweep(p)) => {
                calls.push(format!("sweep {}.{}.{}", p[0], p[1], p[2]));
                log.found = Some(found.clone());
            }
            ScanStep::Run(ScanAction::StartServer) => {
                calls.push("start-server".to_string());
                log.warmed = true;
            }
            ScanStep::Run(ScanAction::Connect(t)) => {
                calls.push(format!("connect {}", t));
                let n = tries.entry(t.clone()).or_insert(0);
                *n += 1;
                let result = connect(&t, *n);
                record_connect(&mut log, &result);
            }
            ScanStep::Run(ScanAction::ConnectAfterPause(t, ms)) => {
                calls.push(format!("pause {} connect {}", ms, t));
                let n = tries.entry(t.clone()).or_insert(0);
                *n += 1;
                let result = connect(&t, *n);
                record_connect(&mut log, &result);
            }
        }
    }
}

#[test]
fn scan_without_gateway_stops_at_once() {
    let (calls, r) = run_scan(None, strings(&["10.0.0.2"]), |_, _| Ok(out("connected to", "")));
    assert_eq!(calls, strings(&["detect"]));
    assert_eq!(r.subnet, None);
    assert!(r.found.is_empty() && r.connected.is_empty() && r.failed.is_empty());
}

#[test]
fn scan_warms_then_connects_each_address_with_one_retry() {
    let found = strings(&["10.0.0.2", "10.0.0.3", "10.0.0.4"]);
    let (calls, r) = run_scan(Some([10, 0, 0]), found.clone(), |t, n| {
        if t == "10.0.0.2:5555" || (t == "10.0.0.3:5555" && n == 2) {
            Ok(out("connected to", ""))
        } else {
            Err("connection refused".to_string())
        }
    });
    assert_eq!(
        calls,
        strings(&[
            "detect",
            "sweep 10.0.0",
            "start-server",
            "connect 10.0.0.2:5555",
            "connect 10.0.0.3:5555",
            "pause 400 connect 10.0.0.3:5555",
            "connect 10.0.0.4:5555",
            "pause 400 connect 10.0.0.4:5555",
        ])
    );
    assert_eq!(r.subnet, Some("10.0.0".to_string()));
    assert_eq!(r.found, found);
    assert_eq!(r.connected, strings(&["10.0.0.2", "10.0.0.3"]));
    assert_eq!(r.failed, strings(&["10.0.0.4"]));
    assert_eq!(r.message, "Scanned 10.0.0.x — found 3 devices, connected 2.");
}

#[test]
fn scan_with_no_hits() {
    let (calls, r) = run_scan(Some([192, 168, 42]), vec![], |_, _| Ok(out("connected to", "")));
    assert_eq!(calls, strings(&["detect", "sweep 192.168.42", "start-server"]));
    assert_eq!(
        r.message,
        "No devices on 192.168.42.x answered on the ADB port. Make sure Network Debugging is enabled on your TV, or use Connect IP for newer Google TVs that need PIN pairing first."
    );
}
