use vstd::prelude::*;
use vstd::string::StringExecFns;
use crate::text::{concat, decimal, decimal2, decimal2_text};

verus! {

/// `(hh:mm:ss)` for a duration of `secs` seconds, each field at least two digits.
pub open spec fn hms(secs: nat) -> Seq<char> {
    "("@ + decimal2(secs / 3600) + ":"@ + decimal2((secs % 3600) / 60) + ":"@ + decimal2(secs % 60)
        + ")"@
}

/// The time spent in the previous state, as `(hh:mm:ss)`.
pub fn hms_text(secs: u64) -> (r: String)
    ensures
        r@ == hms(secs as nat),
{
    let mut s = "(".to_owned();
    let h = decimal2_text(secs / 3600);
    s.append(h.as_str());
    s.append(":");
    let m = decimal2_text((secs % 3600) / 60);
    s.append(m.as_str());
    s.append(":");
    let x = decimal2_text(secs % 60);
    s.append(x.as_str());
    s.append(")");
    s
}

/// One unit of a `humantime` duration: `<value><name>`, with an `s` added to
/// a plural `name` when the value is above one; empty for a zero value.
pub open spec fn time_item(value: nat, name: Seq<char>, plural: bool) -> Seq<char> {
    if value == 0 {
        Seq::empty()
    } else {
        decimal(value) + name + (if plural && value > 1 {
            "s"@
        } else {
            Seq::empty()
        })
    }
}

/// The non-empty items of `items`, separated by single spaces.
pub open spec fn join_items(items: Seq<Seq<char>>) -> Seq<char>
    decreases items.len(),
{
    if items.len() == 0 {
        Seq::empty()
    } else {
        let rest = join_items(items.drop_first());
        if items[0].len() == 0 {
            rest
        } else if rest.len() == 0 {
            items[0]
        } else {
            items[0] + " "@ + rest
        }
    }
}

/// How `humantime::format_duration` writes a whole number of seconds: `0s`,
/// or the non-zero units among years (365.25 days), months (30.44 days),
/// days, hours, minutes and seconds, as in `1year 2months 3days 4h 5m 6s`.
pub open spec fn humantime_text(secs: nat) -> Seq<char> {
    if secs == 0 {
        "0s"@
    } else {
        let years = secs / 31_557_600;
        let ydays = secs % 31_557_600;
        let months = ydays / 2_630_016;
        let mdays = ydays % 2_630_016;
        let days = mdays / 86400;
        let day_secs = mdays % 86400;
        join_items(
            seq![
                time_item(years, "year"@, true),
                time_item(months, "month"@, true),
                time_item(days, "day"@, true),
                time_item(day_secs / 3600, "h"@, false),
                time_item(day_secs % 3600 / 60, "m"@, false),
                time_item(day_secs % 60, "s"@, false),
            ],
        )
    }
}

/// `humantime::format_duration(Duration::from_secs(secs)).to_string()`. The
/// contract restates how that function writes whole seconds.
#[verifier::external_body]
fn humantime_secs(secs: u64) -> (r: String)
    ensures
        r@ == humantime_text(secs as nat),
{
    humantime::format_duration(std::time::Duration::from_secs(secs)).to_string()
}

/// The time spent in the previous state, as `humantime` writes it.
pub fn human_duration(secs: u64) -> (r: String)
    ensures
        r@ == humantime_text(secs as nat),
{
    humantime_secs(secs)
}

/// A change of the link state that the monitor reports.
pub struct StatusChange {
    /// How long the previous state lasted, in whole seconds, and whether it
    /// was up; `None` on the first probe.
    pub previous: Option<(u64, bool)>,
    /// The new state.
    pub up: bool,
}

/// Tracks whether a host is reachable, reporting each change. Times are
/// nanoseconds on one monotonic clock.
pub struct StatusMonitor {
    pub last_status: Option<bool>,
    pub last_change: u64,
}

/// Whole seconds from `from` to `to` (0 if the clock went backwards).
pub open spec fn seconds_between(from: u64, to: u64) -> u64 {
    (if to >= from {
        (to - from) / 1_000_000_000
    } else {
        0
    }) as u64
}

/// The monitor `m` after a probe that found the host `up` at `now`: a new
/// state is recorded with the time it began, a repeated one changes nothing.
pub open spec fn probed(m: StatusMonitor, up: bool, now: u64) -> StatusMonitor {
    if m.last_status == Some(up) {
        m
    } else {
        StatusMonitor { last_status: Some(up), last_change: now }
    }
}

/// What a probe that found the host `up` at `now` reports to monitor `m`:
/// nothing when the state is unchanged, else the new state with the length
/// and value of the previous one (none on the first probe).
pub open spec fn probe_report(m: StatusMonitor, up: bool, now: u64) -> Option<StatusChange> {
    if m.last_status == Some(up) {
        None
    } else {
        Some(
            StatusChange {
                previous: match m.last_status {
                    Some(was) => Some((seconds_between(m.last_change, now), was)),
                    None => None,
                },
                up,
            },
        )
    }
}

impl StatusMonitor {
    /// A monitor that has not probed yet, started at `now`.
    pub fn new(now: u64) -> (r: StatusMonitor)
        ensures
            r.last_status is None,
            r.last_change == now,
    {
        StatusMonitor { last_status: None, last_change: now }
    }

    /// Takes the result `up` of a probe at time `now`; reports it if the state
    /// changed, with the whole seconds spent in the previous state.
    pub fn observe(&mut self, up: bool, now: u64) -> (r: Option<StatusChange>)
        ensures
            *final(self) == probed(*old(self), up, now),
            r == probe_report(*old(self), up, now),
    {
        if let Some(was) = self.last_status {
            if was == up {
                return None;
            }
        }
        let previous = match self.last_status {
            Some(was) => {
                let elapsed = if now >= self.last_change {
                    now - self.last_change
                } else {
                    0
                };
                Some((elapsed / 1_000_000_000, was))
            },
            None => None,
        };
        self.last_status = Some(up);
        self.last_change = now;
        Some(StatusChange { previous, up })
    }
}

/// A state is reported once: probing the same state again reports nothing
/// and leaves the monitor as it was.
pub proof fn lemma_state_reported_once(m: StatusMonitor, up: bool, t1: u64, t2: u64)
    ensures
        probe_report(probed(m, up, t1), up, t2) is None,
        probed(probed(m, up, t1), up, t2) == probed(m, up, t1),
{
}

/// Every change of state is reported, with the new state.
pub proof fn lemma_change_reported(m: StatusMonitor, up: bool, now: u64)
    requires
        m.last_status != Some(up),
    ensures
        probe_report(m, up, now) matches Some(c) && c.up == up,
{
}

/// When the state changes from `a` (itself a change at `t1`) to `b` at `t2`,
/// the report gives `a` and the whole seconds from `t1` to `t2`.
pub proof fn lemma_previous_state_duration(m: StatusMonitor, a: bool, b: bool, t1: u64, t2: u64)
    requires
        m.last_status != Some(a),
        a != b,
        t1 <= t2,
    ensures
        probe_report(probed(m, a, t1), b, t2) == Some(
            StatusChange { previous: Some((((t2 - t1) / 1_000_000_000) as u64, a)), up: b },
        ),
{
}

/// The status line of the compact monitor: `[<time>] +` when up, `[<time>] -`
/// when down.
pub fn status_line(timestamp: &str, up: bool) -> (r: String)
    ensures
        r@ == "["@ + timestamp@ + (if up {
            "] +"@
        } else {
            "] -"@
        }),
{
    let mut s = concat("[", timestamp);
    if up {
        s.append("] +");
    } else {
        s.append("] -");
    }
    s
}

/// What the boxed monitor prints after the time stamp.
pub fn status_suffix(up: bool) -> (r: &'static str)
    ensures
        r@ == (if up {
            "│Online │"@
        } else {
            "│Offline│"@
        }),
{
    if up {
        "│Online │"
    } else {
        "│Offline│"
    }
}

} // verus!
