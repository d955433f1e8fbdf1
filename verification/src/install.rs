//! ADB status, install and restart: what each command reports, given what
//! the `adb` runs it made returned.

use vstd::prelude::*;

use crate::adb::{combined, combined_output, kept, partition_by_outcome, says, text_says, AdbOutput};
use crate::text::{
    concat_text, contains_seq, join_text, joined, lowercase_of, occurs_at, texts, trim_seq,
    trim_text,
};

verus! {

/// What the diagnostic command reports about the `adb` binary.
pub struct AdbStatus {
    /// Whether an `adb devices` probe ran.
    pub available: bool,
    /// The path of the binary that discovery resolved, if any.
    pub path: Option<String>,
    /// What the probe printed; `None` when adb is not available.
    pub last_probe: Option<String>,
}

/// The outcome of installing the platform tools.
pub struct InstallResult {
    pub ok: bool,
    pub path: Option<String>,
    pub message: String,
}

/// The outcome of restarting the ADB server.
pub struct RestartResult {
    pub ok: bool,
    pub message: String,
}

/// One entry of the device list: its serial, and whether it is attached
/// over the network (`ip:port`) rather than by USB.
pub struct DeviceEntry {
    pub serial: String,
    pub is_network: bool,
}

/// The status report for a resolved binary path and the outcome of an
/// `adb devices` probe: available exactly when the probe ran, with its
/// standard output as the last probe; no last probe when adb is not
/// available.
pub fn adb_status(path: Option<String>, probe: Result<AdbOutput, String>) -> (s: AdbStatus)
    ensures
        s.path == path,
        s.available == probe is Ok,
        match probe {
            Ok(out) => s.last_probe == Some(out.stdout),
            Err(_) => s.last_probe is None,
        },
{
    match probe {
        Ok(out) => AdbStatus { available: true, path, last_probe: Some(out.stdout) },
        Err(_) => AdbStatus { available: false, path, last_probe: None },
    }
}

/// The report of an install: where the tools went, or why it failed.
pub fn install_adb(outcome: Result<String, String>) -> (r: InstallResult)
    ensures
        r.ok == outcome is Ok,
        match outcome {
            Ok(path) => {
                &&& r.path matches Some(p) && p@ == path@
                &&& r.message@ == "Installed platform-tools to "@ + path@
            },
            Err(e) => r.path is None && r.message@ == e@,
        },
{
    match outcome {
        Ok(path) => {
            let message = concat_text("Installed platform-tools to ", path.as_str());
            InstallResult { ok: true, path: Some(path), message }
        },
        Err(e) => InstallResult { ok: false, path: None, message: e },
    }
}

/// The serials of the entries attached over the network, in order.
pub open spec fn network_serials_of(entries: Seq<DeviceEntry>) -> Seq<Seq<char>>
    decreases entries.len(),
{
    if entries.len() == 0 {
        Seq::empty()
    } else {
        let rest = network_serials_of(entries.drop_last());
        if entries.last().is_network {
            rest.push(entries.last().serial@)
        } else {
            rest
        }
    }
}

/// The network devices to reconnect after a restart, from the device list
/// read before it: none when the list could not be read.
pub fn network_serials(devices: &Result<Vec<DeviceEntry>, String>) -> (r: Vec<String>)
    ensures
        texts(r@) == match devices {
            Ok(entries) => network_serials_of(entries@),
            Err(_) => Seq::empty(),
        },
{
    let mut r: Vec<String> = Vec::new();
    match devices {
        Err(_) => {
            assert(texts(r@) =~= Seq::<Seq<char>>::empty());
        },
        Ok(entries) => {
            let n = entries.len();
            let mut i: usize = 0;
            assert(entries@.take(0) =~= Seq::<DeviceEntry>::empty());
            assert(texts(r@) =~= Seq::<Seq<char>>::empty());
            while i < n
                invariant
                    i <= n,
                    n == entries.len(),
                    texts(r@) == network_serials_of(entries@.take(i as int)),
                decreases n - i,
            {
                assert(entries@.take(i + 1).drop_last() =~= entries@.take(i as int));
                let ghost before = r@;
                if entries[i].is_network {
                    r.push(entries[i].serial.clone());
                    assert(texts(r@) =~= texts(before).push(entries@[i as int].serial@));
                }
                i = i + 1;
            }
            assert(entries@.take(n as int) =~= entries@);
        },
    }
    r
}

/// `adb start-server` went well: its output mentions neither "error" nor
/// "cannot", in any letter case. (Its "daemon not running" notice on a
/// first start is success.)
pub open spec fn start_output_ok_spec(start_output: Seq<char>) -> bool {
    !says(start_output, "error"@) && !says(start_output, "cannot"@)
}

/// The start of a restart is judged on the whole output of
/// `adb start-server`, every line of it: it went well exactly when
/// "error" and "cannot" occur nowhere in the output's lowercase form, and
/// one occurrence at any position makes it fail.
pub proof fn law_start_judged_on_whole_output(start_output: Seq<char>, i: int)
    ensures
        start_output_ok_spec(start_output) <==> (forall|k: int|
            !occurs_at(lowercase_of(start_output), "error"@, k)) && (forall|k: int|
            !occurs_at(lowercase_of(start_output), "cannot"@, k)),
        occurs_at(lowercase_of(start_output), "error"@, i) ==> !start_output_ok_spec(start_output),
        occurs_at(lowercase_of(start_output), "cannot"@, i) ==> !start_output_ok_spec(start_output),
{
}

/// A restart that some devices failed to rejoin says so at the end of its
/// message, listing exactly those devices, whether or not any others
/// reconnected; and one that reconnected devices lists them after the
/// start output.
pub proof fn law_restart_message_lists_failures(
    start_output: Seq<char>,
    reconnected: Seq<Seq<char>>,
    failed: Seq<Seq<char>>,
)
    ensures
        failed.len() > 0 ==> exists|p: Seq<char>|
            restart_message_spec(start_output, reconnected, failed) == p + "\nCould not reconnect: "@
                + joined(failed, ", "@) + " — try Scan Network or Connect IP."@,
        failed.len() == 0 && reconnected.len() > 0 ==> exists|p: Seq<char>|
            restart_message_spec(start_output, reconnected, failed) == p + "\nReconnected: "@
                + joined(reconnected, ", "@),
        failed.len() == 0 && reconnected.len() == 0 ==> restart_message_spec(
            start_output,
            reconnected,
            failed,
        ) == if trim_seq(start_output).len() == 0 {
            "ADB server restarted."@
        } else {
            trim_seq(start_output)
        },
{
    let t = trim_seq(start_output);
    let head = if t.len() == 0 {
        "ADB server restarted."@
    } else {
        t
    };
    let good = if reconnected.len() > 0 {
        "\nReconnected: "@ + joined(reconnected, ", "@)
    } else {
        Seq::empty()
    };
    let msg = restart_message_spec(start_output, reconnected, failed);
    if failed.len() > 0 {
        let tail = "\nCould not reconnect: "@ + joined(failed, ", "@) + " — try Scan Network or Connect IP."@;
        assert(msg =~= (head + good) + "\nCould not reconnect: "@ + joined(failed, ", "@)
            + " — try Scan Network or Connect IP."@);
    } else if reconnected.len() > 0 {
        assert(msg =~= head + "\nReconnected: "@ + joined(reconnected, ", "@));
    } else {
        assert(msg =~= head);
    }
}

/// Whether the output of `adb start-server` reports success.
pub fn start_output_ok(start_output: &str) -> (b: bool)
    ensures
        b == start_output_ok_spec(start_output@),
{
    !text_says(start_output, "error") && !text_says(start_output, "cannot")
}

/// Whether an `adb connect` run during a restart reconnected its device:
/// the run succeeded and its output mentions "connected to" in any letter
/// case (which "already connected to" does too).
pub fn reconnect_ok(result: &Result<AdbOutput, String>) -> (b: bool)
    ensures
        b == match result {
            Ok(out) => says(combined(*out), "connected to"@),
            Err(_) => false,
        },
{
    match result {
        Ok(out) => {
            let s = combined_output(out);
            text_says(s.as_str(), "connected to")
        },
        Err(_) => false,
    }
}

/// The report text of a restart whose `adb start-server` printed
/// `start_output` and whose reconnects went as listed.
pub open spec fn restart_message_spec(
    start_output: Seq<char>,
    reconnected: Seq<Seq<char>>,
    failed: Seq<Seq<char>>,
) -> Seq<char> {
    let t = trim_seq(start_output);
    let head = if t.len() == 0 {
        "ADB server restarted."@
    } else {
        t
    };
    let good = if reconnected.len() > 0 {
        "\nReconnected: "@ + joined(reconnected, ", "@)
    } else {
        Seq::empty()
    };
    let bad = if failed.len() > 0 {
        "\nCould not reconnect: "@ + joined(failed, ", "@) + " — try Scan Network or Connect IP."@
    } else {
        Seq::empty()
    };
    head + good + bad
}

/// The report text of a restart.
pub fn restart_message(start_output: &str, reconnected: &Vec<String>, failed: &Vec<String>) -> (r:
    String)
    ensures
        r@ == restart_message_spec(start_output@, texts(reconnected@), texts(failed@)),
{
    let t = trim_text(start_output);
    let mut message = if t.unicode_len() == 0 {
        String::from_str("ADB server restarted.")
    } else {
        String::from_str(t)
    };
    let ghost head = message@;
    if reconnected.len() > 0 {
        message.append("\nReconnected: ");
        let list = join_text(reconnected, ", ");
        message.append(list.as_str());
    }
    let ghost with_good = message@;
    if failed.len() > 0 {
        message.append("\nCould not reconnect: ");
        let list = join_text(failed, ", ");
        message.append(list.as_str());
        message.append(" — try Scan Network or Connect IP.");
    }
    proof {
        let good = if reconnected.len() > 0 {
            "\nReconnected: "@ + joined(texts(reconnected@), ", "@)
        } else {
            Seq::empty()
        };
        let bad = if failed.len() > 0 {
            "\nCould not reconnect: "@ + joined(texts(failed@), ", "@)
                + " — try Scan Network or Connect IP."@
        } else {
            Seq::empty()
        };
        assert(with_good =~= head + good);
        assert(message@ =~= head + good + bad);
    }
    message
}

/// Whether an `adb connect` run during a restart reconnected its device.
pub open spec fn reconnected(result: Result<AdbOutput, String>) -> bool {
    match result {
        Ok(out) => says(combined(out), "connected to"@),
        Err(_) => false,
    }
}

/// The report of a restart whose `adb start-server` printed `out` and whose
/// targets reconnected or not as `outcomes` says: ok when the start output
/// reports no error and every target reconnected; the message gives the
/// start output and lists the reconnects.
pub fn restart_report(out: &AdbOutput, targets: &Vec<String>, outcomes: &Vec<bool>) -> (r:
    RestartResult)
    requires
        targets.len() == outcomes.len(),
    ensures
        r.ok == (start_output_ok_spec(combined(*out)) && kept(texts(targets@), outcomes@, false).len()
            == 0),
        r.message@ == restart_message_spec(
            combined(*out),
            kept(texts(targets@), outcomes@, true),
            kept(texts(targets@), outcomes@, false),
        ),
{
    let start_output = combined_output(out);
    let (reconnected, failed) = partition_by_outcome(targets, outcomes);
    let ok = start_output_ok(start_output.as_str()) && failed.len() == 0;
    let message = restart_message(start_output.as_str(), &reconnected, &failed);
    RestartResult { ok, message }
}

/// An `adb` run that a restart asks for.
pub enum RestartAction {
    /// `adb devices`, to learn which devices are attached over the network.
    ListDevices,
    /// `adb kill-server`; its outcome does not matter.
    KillServer,
    /// `adb start-server`.
    StartServer,
    /// `adb connect` to a network device seen before the restart.
    Connect(String),
}

/// What a restart does next.
pub enum RestartStep {
    Run(RestartAction),
    Finish(RestartResult),
}

/// What a restart has learned so far, one field per kind of run.
pub struct RestartLog {
    /// The device list read by `adb devices`, once it has run.
    pub devices: Option<Result<Vec<DeviceEntry>, String>>,
    /// Whether `adb kill-server` has run.
    pub killed: bool,
    /// The outcome of `adb start-server`, once it has run.
    pub start: Option<Result<AdbOutput, String>>,
    /// The outcomes of the `adb connect` runs, in the order they ran.
    pub connects: Vec<Result<AdbOutput, String>>,
}

/// The network devices a restart reconnects: those attached over the
/// network in the device list read before it, none when it could not be read.
pub open spec fn planned_reconnects(log: RestartLog) -> Seq<Seq<char>> {
    match log.devices {
        Some(Ok(entries)) => network_serials_of(entries@),
        _ => Seq::empty(),
    }
}

/// Whether each of the first `n` connect runs reconnected its device.
pub open spec fn reconnect_outcomes(connects: Seq<Result<AdbOutput, String>>, n: int) -> Seq<bool> {
    connects.take(n).map_values(|r: Result<AdbOutput, String>| reconnected(r))
}

fn first_outcomes(connects: &Vec<Result<AdbOutput, String>>, n: usize) -> (r: Vec<bool>)
    requires
        n <= connects.len(),
    ensures
        r@ == reconnect_outcomes(connects@, n as int),
{
    let mut r: Vec<bool> = Vec::new();
    let mut i: usize = 0;
    while i < n
        invariant
            i <= n,
            n <= connects.len(),
            r@ =~= reconnect_outcomes(connects@, i as int),
        decreases n - i,
    {
        let ok = reconnect_ok(&connects[i]);
        r.push(ok);
        i = i + 1;
    }
    r
}

/// The next step of `restart_adb`: `adb devices`, then `adb kill-server`,
/// then `adb start-server`; a failed start ends the restart with its error
/// and no reconnect; otherwise `adb connect` once to each network device
/// seen before the restart, in order (USB devices come back by themselves),
/// and then the report.
pub fn restart_adb(log: &RestartLog) -> (s: RestartStep)
    ensures
        match log.devices {
            None => s == RestartStep::Run(RestartAction::ListDevices),
            Some(_) => if !log.killed {
                s == RestartStep::Run(RestartAction::KillServer)
            } else {
                match log.start {
                    None => s == RestartStep::Run(RestartAction::StartServer),
                    Some(Err(e)) => s matches RestartStep::Finish(r) && !r.ok && r.message@ == e@,
                    Some(Ok(out)) => {
                        let n = planned_reconnects(*log);
                        let outcomes = reconnect_outcomes(log.connects@, n.len() as int);
                        if log.connects.len() < n.len() {
                            s matches RestartStep::Run(RestartAction::Connect(t)) && t@ == n[log.connects.len() as int]
                        } else {
                            s matches RestartStep::Finish(r) && r.ok == (start_output_ok_spec(combined(out))
                                && kept(n, outcomes, false).len() == 0) && r.message@ == restart_message_spec(
                                combined(out),
                                kept(n, outcomes, true),
                                kept(n, outcomes, false),
                            )
                        }
                    },
                }
            },
        },
{
    let devices = match &log.devices {
        None => {
            return RestartStep::Run(RestartAction::ListDevices);
        },
        Some(d) => d,
    };
    if !log.killed {
        return RestartStep::Run(RestartAction::KillServer);
    }
    let out = match &log.start {
        None => {
            return RestartStep::Run(RestartAction::StartServer);
        },
        Some(Err(e)) => {
            return RestartStep::Finish(RestartResult { ok: false, message: e.clone() });
        },
        Some(Ok(out)) => out,
    };
    let targets = network_serials(devices);
    assert(texts(targets@) == planned_reconnects(*log));
    let done = log.connects.len();
    if done < targets.len() {
        let t = targets[done].clone();
        assert(texts(targets@)[done as int] == targets@[done as int]@);
        return RestartStep::Run(RestartAction::Connect(t));
    }
    let outcomes = first_outcomes(&log.connects, targets.len());
    RestartStep::Finish(restart_report(out, &targets, &outcomes))
}

} // verus!
