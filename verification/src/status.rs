//! What the client shows of its connection: state, traffic counters, steps
//! and a bounded log, and the clock that stamps log lines.
use vstd::prelude::*;
use vstd::string::*;

use crate::profile::{planned_steps, socks_address, socks_text, steps_for, string_views, ClientProfile, ProfileView};
use crate::text::{push_two_digits, text_eq, two_digits};
use crate::uri::PublicTarget;

verus! {

/// How many log lines the status keeps.
pub const LOG_LIMIT: usize = 120;

/// The connection status shown to the user.
#[derive(Debug, Clone, PartialEq, Eq)]
pub struct ClientStatus {
    pub state: String,
    pub mode: String,
    pub socks: String,
    pub download_bps: u64,
    pub upload_bps: u64,
    pub download_bytes: u64,
    pub upload_bytes: u64,
    pub started_at: String,
    pub notice: String,
    pub target: Option<PublicTarget>,
    pub steps: Vec<String>,
    pub logs: Vec<String>,
}

#[verifier::external_type_specification]
#[verifier::external_body]
pub struct ExSystemTime(std::time::SystemTime);

/// `SystemTime::now`: the reading of the system clock. Nothing is stated of
/// it: it is the time.
#[verifier::external_body]
fn system_time_now() -> (t: std::time::SystemTime) {
    std::time::SystemTime::now()
}

/// `SystemTime::duration_since(UNIX_EPOCH)`: the time elapsed since the Unix
/// epoch, `None` for a time before it. Nothing is stated of the duration.
#[verifier::external_body]
fn elapsed_since_epoch(t: &std::time::SystemTime) -> (d: Option<core::time::Duration>) {
    t.duration_since(std::time::UNIX_EPOCH).ok()
}

/// `Duration::as_secs`: the whole seconds of a duration. A duration is opaque
/// here, so nothing is stated of them.
#[verifier::external_body]
fn whole_seconds(d: &core::time::Duration) -> (s: u64) {
    d.as_secs()
}

/// The seconds since the epoch, 0 when there are none (a clock before the
/// epoch).
pub fn seconds_or_zero(elapsed: Option<u64>) -> (r: u64)
    ensures
        r == match elapsed {
            Some(s) => s,
            None => 0,
        },
{
    match elapsed {
        Some(s) => s,
        None => 0,
    }
}

/// Seconds since the Unix epoch, 0 when the clock is before it.
pub fn unix_seconds() -> (r: u64) {
    let now = system_time_now();
    let elapsed = match elapsed_since_epoch(&now) {
        Some(d) => Some(whole_seconds(&d)),
        None => None,
    };
    seconds_or_zero(elapsed)
}

/// `HH:MM:SS` of the time of day (UTC) that `secs` seconds since the epoch
/// fall on.
pub open spec fn clock_text(secs: u64) -> Seq<char> {
    let s = (secs % 86400) as nat;
    two_digits(s / 3600) + ":"@ + two_digits((s / 60) % 60) + ":"@ + two_digits(s % 60)
}

/// The time of day of `secs`, as `HH:MM:SS`.
pub fn clock_string(secs: u64) -> (r: String)
    ensures
        r@ == clock_text(secs),
{
    let s = secs % 86400;
    let mut r = String::new();
    push_two_digits(&mut r, s / 3600);
    r.append(":");
    push_two_digits(&mut r, (s / 60) % 60);
    r.append(":");
    push_two_digits(&mut r, s % 60);
    r
}

/// The current time of day, as `HH:MM:SS`.
pub fn time_stamp() -> (r: String)
    ensures
        exists|t: u64| r@ == clock_text(t),
{
    let t = unix_seconds();
    clock_string(t)
}

/// A log line: its time stamp, two spaces, its text.
pub open spec fn log_entry(secs: u64, line: Seq<char>) -> Seq<char> {
    clock_text(secs) + "  "@ + line
}

/// The log after one more line: the newest `LOG_LIMIT` lines.
pub open spec fn keep_recent(logs: Seq<Seq<char>>) -> Seq<Seq<char>> {
    if logs.len() > LOG_LIMIT {
        logs.skip(logs.len() - LOG_LIMIT)
    } else {
        logs
    }
}

/// The log with `line` appended at time `secs`.
pub open spec fn logged(logs: Seq<Seq<char>>, secs: u64, line: Seq<char>) -> Seq<Seq<char>> {
    keep_recent(logs.push(log_entry(secs, line)))
}

/// The log with three lines appended, at times `t1`, `t2`, `t3`.
pub open spec fn logged_three(
    logs: Seq<Seq<char>>,
    t1: u64,
    a: Seq<char>,
    t2: u64,
    b: Seq<char>,
    t3: u64,
    c: Seq<char>,
) -> Seq<Seq<char>> {
    logged(logged(logged(logs, t1, a), t2, b), t3, c)
}

/// Whether two statuses differ at most in their logs.
pub open spec fn same_but_logs(a: ClientStatus, b: ClientStatus) -> bool {
    &&& a.state == b.state
    &&& a.mode == b.mode
    &&& a.socks == b.socks
    &&& a.download_bps == b.download_bps
    &&& a.upload_bps == b.upload_bps
    &&& a.download_bytes == b.download_bytes
    &&& a.upload_bytes == b.upload_bytes
    &&& a.started_at == b.started_at
    &&& a.notice == b.notice
    &&& a.target == b.target
    &&& a.steps == b.steps
}

/// Whether `is_active` holds of a state text.
pub open spec fn active_state(state: Seq<char>) -> bool {
    state == "connected"@ || state == "connecting"@
}

impl ClientStatus {
    /// The status of a client that is not connected.
    pub fn ready(profile: &ClientProfile) -> (s: ClientStatus)
        ensures
            s.state@ == "disconnected"@,
            s.mode@ == profile.mode@,
            s.socks@ == socks_text(profile@),
            s.download_bps == 0,
            s.upload_bps == 0,
            s.download_bytes == 0,
            s.upload_bytes == 0,
            s.started_at@.len() == 0,
            s.notice@.len() == 0,
            s.target is None,
            string_views(s.steps@) == steps_for(profile.mode@),
            string_views(s.logs@) == seq!["Client ready"@],
    {
        let mut logs: Vec<String> = Vec::new();
        logs.push(String::from_str("Client ready"));
        assert(string_views(logs@) =~= seq!["Client ready"@]);
        ClientStatus {
            state: String::from_str("disconnected"),
            mode: profile.mode.clone(),
            socks: socks_address(profile),
            download_bps: 0,
            upload_bps: 0,
            download_bytes: 0,
            upload_bytes: 0,
            started_at: String::new(),
            notice: String::new(),
            target: None,
            steps: planned_steps(profile.mode.as_str()),
            logs,
        }
    }

    /// Appends a log line stamped with the current time, keeping the newest
    /// `LOG_LIMIT` lines.
    pub fn push_log(&mut self, line: &str)
        ensures
            exists|t: u64|
                string_views(final(self).logs@) == logged(string_views(old(self).logs@), t, line@),
            same_but_logs(*final(self), *old(self)),
    {
        let stamp = time_stamp();
        let ghost t = choose|t: u64| stamp@ == clock_text(t);
        let entry = stamp.concat("  ").concat(line);
        let ghost before = string_views(self.logs@);
        self.logs.push(entry);
        assert(string_views(self.logs@) =~= before.push(log_entry(t, line@)));
        if self.logs.len() > LOG_LIMIT {
            let keep_from = self.logs.len() - LOG_LIMIT;
            let ghost all = self.logs@;
            let kept = self.logs.split_off(keep_from);
            self.logs = kept;
            assert(string_views(self.logs@) =~= string_views(all).skip(keep_from as int));
        }
        assert(string_views(self.logs@) == logged(before, t, line@));
    }

    /// Whether the client is connected or connecting.
    pub fn is_active(&self) -> (b: bool)
        ensures
            b == active_state(self.state@),
    {
        text_eq(self.state.as_str(), "connected") || text_eq(self.state.as_str(), "connecting")
    }

    /// The label of the tray's connect/disconnect item, and whether the item
    /// can be clicked (not while connecting).
    pub fn tray_toggle(&self) -> (r: (String, bool))
        ensures
            r.0@ == (if active_state(self.state@) {
                "Disconnect"@
            } else {
                "Connect"@
            }),
            r.1 == (self.state@ != "connecting"@),
    {
        let text = if self.is_active() {
            String::from_str("Disconnect")
        } else {
            String::from_str("Connect")
        };
        (text, !text_eq(self.state.as_str(), "connecting"))
    }
}

} // verus!
