//! The network scan: which addresses of the local /24 answered on the ADB
//! port, which of them `adb connect` reached, and the summary line.

use vstd::prelude::*;

use crate::adb::{combined, combined_output, kept, partition_by_outcome, says, text_says, AdbOutput};
use crate::text::{concat_text, copy_texts, decimal_seq, decimal_text, first_flags, texts};

verus! {

/// The summary of a network scan, for the user interface.
pub struct ScanResult {
    /// First three octets of the scanned /24 (e.g. "192.168.42"), or `None`
    /// if the gateway could not be detected.
    pub subnet: Option<String>,
    /// Addresses that answered on the ADB port.
    pub found: Vec<String>,
    /// Addresses that `adb connect` reached.
    pub connected: Vec<String>,
    /// Addresses that answered on the port but that `adb connect` did not reach.
    pub failed: Vec<String>,
    /// A summary line.
    pub message: String,
}

/// What to do after an `adb connect` attempt.
pub enum ConnectStep {
    /// Stop trying; the device did or did not connect.
    Done { connected: bool },
    /// Wait this many milliseconds, then try once more.
    RetryAfterMillis(u64),
}

/// The port on which devices listen for ADB over the network.
pub open spec fn adb_port_suffix() -> Seq<char> {
    ":5555"@
}

/// The report when no default gateway, and so no subnet, could be found.
pub fn no_gateway_result() -> (r: ScanResult)
    ensures
        r.subnet is None,
        r.found@.len() == 0,
        r.connected@.len() == 0,
        r.failed@.len() == 0,
        r.message@ == "Could not detect default gateway. Set SHIELD_OPTIMIZER_SUBNET=\"a.b.c\" to override, or use Connect IP."@,
{
    ScanResult {
        subnet: None,
        found: Vec::new(),
        connected: Vec::new(),
        failed: Vec::new(),
        message: String::from_str(
            "Could not detect default gateway. Set SHIELD_OPTIMIZER_SUBNET=\"a.b.c\" to override, or use Connect IP.",
        ),
    }
}

/// The text of a /24 prefix: its three octets in decimal, joined by dots.
pub open spec fn subnet_label_spec(prefix: Seq<u8>) -> Seq<char> {
    decimal_seq(prefix[0] as nat) + "."@ + decimal_seq(prefix[1] as nat) + "."@ + decimal_seq(
        prefix[2] as nat,
    )
}

/// The text of a /24 prefix, such as `192.168.42`.
pub fn subnet_label(prefix: [u8; 3]) -> (r: String)
    ensures
        r@ == subnet_label_spec(prefix@),
{
    let mut r = decimal_text(prefix[0] as u64);
    r.append(".");
    let b = decimal_text(prefix[1] as u64);
    r.append(b.as_str());
    r.append(".");
    let c = decimal_text(prefix[2] as u64);
    r.append(c.as_str());
    r
}

/// The `adb connect` target of an address: the address and the ADB port.
pub fn connect_target(ip: &str) -> (r: String)
    ensures
        r@ == ip@ + adb_port_suffix(),
{
    concat_text(ip, ":5555")
}

/// `adb connect` reached its device: its combined output mentions
/// "connected to" (as "already connected to" does) and neither "failed" nor
/// "cannot", in any letter case. The text decides rather than the exit
/// code, whose conventions vary across `adb` versions.
pub open spec fn connect_output_ok(text: Seq<char>) -> bool {
    says(text, "connected to"@) && !says(text, "failed"@) && !says(text, "cannot"@)
}

/// Whether an `adb connect` run reached its device; a run that failed
/// (a nonzero exit among others) did not.
pub fn adb_connect_ok(result: &Result<AdbOutput, String>) -> (b: bool)
    ensures
        b == match result {
            Ok(out) => connect_output_ok(combined(*out)),
            Err(_) => false,
        },
{
    match result {
        Ok(out) => {
            let s = combined_output(out);
            let t = s.as_str();
            text_says(t, "connected to") && !text_says(t, "failed") && !text_says(t, "cannot")
        },
        Err(_) => false,
    }
}

/// After `attempts` tries to connect, the last of which did or did not
/// connect: a device that did not connect on its first try gets one more
/// after a pause of 400 ms.
pub fn next_connect_step(attempts: u32, connected: bool) -> (s: ConnectStep)
    ensures
        s == if connected {
            ConnectStep::Done { connected: true }
        } else if attempts < 2 {
            ConnectStep::RetryAfterMillis(RETRY_PAUSE_MILLIS)
        } else {
            ConnectStep::Done { connected: false }
        },
{
    if connected {
        ConnectStep::Done { connected: true }
    } else if attempts < 2 {
        ConnectStep::RetryAfterMillis(RETRY_PAUSE_MILLIS)
    } else {
        ConnectStep::Done { connected: false }
    }
}

/// The summary line of a scan of `label`.x that found `found` devices and
/// connected `connected` of them.
pub open spec fn scan_message_spec(label: Seq<char>, found: nat, connected: nat) -> Seq<char> {
    if found == 0 {
        "No devices on "@ + label
            + ".x answered on the ADB port. Make sure Network Debugging is enabled on your TV, or use Connect IP for newer Google TVs that need PIN pairing first."@
    } else {
        "Scanned "@ + label + ".x — found "@ + decimal_seq(found) + " device"@ + (if found == 1 {
            Seq::empty()
        } else {
            "s"@
        }) + ", connected "@ + decimal_seq(connected) + "."@
    }
}

/// In the summary of a scan that found devices, the word after the count
/// found is "device" for exactly one device and "devices" otherwise,
/// whatever the number connected: the summary starts with
/// "Scanned <label>.x — found <found> device", and the next character is
/// the ',' of ", connected" for one device and an 's' for more.
pub proof fn law_plural_follows_found_count(label: Seq<char>, found: nat, connected: nat)
    requires
        found > 0,
    ensures
        ({
            let lead = "Scanned "@ + label + ".x — found "@ + decimal_seq(found) + " device"@;
            let msg = scan_message_spec(label, found, connected);
            &&& msg.len() > lead.len()
            &&& msg.take(lead.len() as int) == lead
            &&& msg[lead.len() as int] == if found == 1 {
                ','
            } else {
                's'
            }
        }),
{
    reveal_strlit(", connected ");
    reveal_strlit("s");
    let lead = "Scanned "@ + label + ".x — found "@ + decimal_seq(found) + " device"@;
    let msg = scan_message_spec(label, found, connected);
    if found == 1 {
        assert(msg =~= lead + ", connected "@ + decimal_seq(connected) + "."@);
        assert(msg.take(lead.len() as int) =~= lead);
        assert(msg[lead.len() as int] == (", connected "@)[0]);
    } else {
        assert(msg =~= lead + "s"@ + ", connected "@ + decimal_seq(connected) + "."@);
        assert(msg.take(lead.len() as int) =~= lead);
        assert(msg[lead.len() as int] == ("s"@)[0]);
    }
}

/// The summary line of a scan.
pub fn scan_message(label: &str, found: u64, connected: u64) -> (r: String)
    ensures
        r@ == scan_message_spec(label@, found as nat, connected as nat),
{
    if found == 0 {
        let mut r = String::from_str("No devices on ");
        r.append(label);
        r.append(
            ".x answered on the ADB port. Make sure Network Debugging is enabled on your TV, or use Connect IP for newer Google TVs that need PIN pairing first.",
        );
        r
    } else {
        let mut r = String::from_str("Scanned ");
        r.append(label);
        r.append(".x — found ");
        let f = decimal_text(found);
        r.append(f.as_str());
        r.append(" device");
        let ghost before_plural = r@;
        if found != 1 {
            r.append("s");
        }
        assert(found == 1 ==> r@ =~= before_plural + Seq::<char>::empty());
        r.append(", connected ");
        let c = decimal_text(connected);
        r.append(c.as_str());
        r.append(".");
        r
    }
}

/// `r` reports a scan of the /24 `prefix` that found the addresses `found`,
/// which `adb connect` reached or not as `outcomes` says.
pub open spec fn reports_scan(
    r: ScanResult,
    prefix: Seq<u8>,
    found: Seq<Seq<char>>,
    outcomes: Seq<bool>,
) -> bool {
    &&& r.subnet matches Some(s) && s@ == subnet_label_spec(prefix)
    &&& texts(r.found@) == found
    &&& texts(r.connected@) == kept(found, outcomes, true)
    &&& texts(r.failed@) == kept(found, outcomes, false)
    &&& r.message@ == scan_message_spec(
        subnet_label_spec(prefix),
        found.len(),
        kept(found, outcomes, true).len(),
    )
}

/// The report of a scan of the /24 `prefix`: the addresses that answered,
/// split by whether `adb connect` reached them, and the summary line.
pub fn scan_report(prefix: [u8; 3], found: &Vec<String>, outcomes: &Vec<bool>) -> (r: ScanResult)
    requires
        found.len() == outcomes.len(),
    ensures
        reports_scan(r, prefix@, texts(found@), outcomes@),
{
    let label = subnet_label(prefix);
    let (connected, failed) = partition_by_outcome(found, outcomes);
    let message = scan_message(label.as_str(), found.len() as u64, connected.len() as u64);
    ScanResult { subnet: Some(label), found: copy_texts(found), connected, failed, message }
}

/// The pause before the one retry of an `adb connect` that did not connect.
pub const RETRY_PAUSE_MILLIS: u64 = 400;

/// A step of the scan that needs the outside world.
pub enum ScanAction {
    /// Find the /24 of the default gateway.
    DetectSubnet,
    /// Sweep the /24 for addresses answering on the ADB port.
    Sweep([u8; 3]),
    /// `adb start-server`, to warm the daemon before connecting; its outcome
    /// does not matter.
    StartServer,
    /// `adb connect` to a target.
    Connect(String),
    /// Wait this many milliseconds, then `adb connect` to the target again.
    ConnectAfterPause(String, u64),
}

/// What a scan does next.
pub enum ScanStep {
    Run(ScanAction),
    Finish(ScanResult),
}

/// What a scan has learned so far.
pub struct ScanLog {
    /// The /24 of the default gateway once detection has run (`Some(None)`
    /// when there is no gateway).
    pub prefix: Option<Option<[u8; 3]>>,
    /// The addresses that answered on the ADB port, once the sweep has run.
    pub found: Option<Vec<String>>,
    /// Whether `adb start-server` has run.
    pub warmed: bool,
    /// For each address in order whose connecting is settled, whether it
    /// connected.
    pub outcomes: Vec<bool>,
    /// Whether the current address failed its first try and awaits its retry.
    pub retrying: bool,
}

/// The next step of `scan_network`: detect the subnet (none: report that
/// and stop), sweep it, warm the daemon with `adb start-server`, then for
/// each address in order `adb connect` to it on the ADB port, once more
/// after a pause if the first try did not connect, and then the report.
pub fn scan_network(log: &ScanLog) -> (s: ScanStep)
    ensures
        match log.prefix {
            None => s == ScanStep::Run(ScanAction::DetectSubnet),
            Some(None) => s matches ScanStep::Finish(r) && r.subnet is None && r.found@.len() == 0
                && r.connected@.len() == 0 && r.failed@.len() == 0
                && r.message@ == "Could not detect default gateway. Set SHIELD_OPTIMIZER_SUBNET=\"a.b.c\" to override, or use Connect IP."@,
            Some(Some(p)) => match log.found {
                None => s == ScanStep::Run(ScanAction::Sweep(p)),
                Some(f) => if !log.warmed {
                    s == ScanStep::Run(ScanAction::StartServer)
                } else if log.outcomes.len() < f.len() {
                    let t = f@[log.outcomes.len() as int]@ + adb_port_suffix();
                    if log.retrying {
                        s matches ScanStep::Run(ScanAction::ConnectAfterPause(x, ms)) && x@ == t
                            && ms == RETRY_PAUSE_MILLIS
                    } else {
                        s matches ScanStep::Run(ScanAction::Connect(x)) && x@ == t
                    }
                } else {
                    s matches ScanStep::Finish(r) && reports_scan(
                        r,
                        p@,
                        texts(f@),
                        log.outcomes@.take(f.len() as int),
                    )
                },
            },
        },
{
    let prefix = match log.prefix {
        None => {
            return ScanStep::Run(ScanAction::DetectSubnet);
        },
        Some(None) => {
            return ScanStep::Finish(no_gateway_result());
        },
        Some(Some(p)) => p,
    };
    let found = match &log.found {
        None => {
            return ScanStep::Run(ScanAction::Sweep(prefix));
        },
        Some(f) => f,
    };
    if !log.warmed {
        return ScanStep::Run(ScanAction::StartServer);
    }
    let done = log.outcomes.len();
    if done < found.len() {
        let target = connect_target(found[done].as_str());
        if log.retrying {
            return ScanStep::Run(ScanAction::ConnectAfterPause(target, RETRY_PAUSE_MILLIS));
        } else {
            return ScanStep::Run(ScanAction::Connect(target));
        }
    }
    let outcomes = first_flags(&log.outcomes, found.len());
    ScanStep::Finish(scan_report(prefix, found, &outcomes))
}

/// Records the outcome of an `adb connect` run on the current address: a
/// connect settles it as connected; a first failure leaves it awaiting its
/// retry; a failed retry settles it as not connected.
pub fn record_connect(log: &mut ScanLog, result: &Result<AdbOutput, String>)
    ensures
        final(log).prefix == old(log).prefix,
        final(log).found == old(log).found,
        final(log).warmed == old(log).warmed,
        ({
            let ok = match *result {
                Ok(out) => connect_output_ok(combined(out)),
                Err(_) => false,
            };
            if ok {
                final(log).outcomes@ == old(log).outcomes@.push(true) && !final(log).retrying
            } else if !old(log).retrying {
                final(log).outcomes@ == old(log).outcomes@ && final(log).retrying
            } else {
                final(log).outcomes@ == old(log).outcomes@.push(false) && !final(log).retrying
            }
        }),
{
    let ok = adb_connect_ok(result);
    let attempts: u32 = if log.retrying { 2 } else { 1 };
    match next_connect_step(attempts, ok) {
        ConnectStep::Done { connected } => {
            log.outcomes.push(connected);
            log.retrying = false;
        },
        ConnectStep::RetryAfterMillis(_) => {
            log.retrying = true;
        },
    }
}

} // verus!
