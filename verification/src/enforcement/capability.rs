//! Observed capability evidence and when it may still be used.
use crate::clock::{format_utc_seconds, four_digit_year, instant_lt, parse_rfc3339, rfc3339_instant, utc_seconds_text};
use crate::result::Capability;
use vstd::prelude::*;

verus! {

/// What was observed of a boundary's capability, and for how long the
/// observation holds.
#[derive(Clone, Debug, PartialEq, Eq)]
pub struct CapabilityObservation {
    pub schema: String,
    pub capability: Capability,
    pub mechanism: String,
    pub observed_at: String,
    pub expires_at: String,
}

/// An observation is current at `now` when both its times read, it was
/// observed no later than it expires, and `now` is not past its expiry.
pub open spec fn observation_current(o: CapabilityObservation, now: (i64, u32)) -> bool {
    match (rfc3339_instant(o.observed_at@), rfc3339_instant(o.expires_at@)) {
        (Some(observed), Some(expires)) => !instant_lt(expires, observed) && !instant_lt(expires, now),
        _ => false,
    }
}

/// Evidence only goes stale: an observation is usable only when both of
/// its times read and it expires no earlier than it was observed; one that
/// is usable at some instant is usable at every earlier one; and none is
/// usable at an instant past the expiry it records.
pub proof fn lemma_observation_goes_stale(o: CapabilityObservation, t1: (i64, u32), t2: (i64, u32))
    ensures
        observation_current(o, t2) ==> (rfc3339_instant(o.observed_at@) matches Some(b)
            && rfc3339_instant(o.expires_at@) matches Some(e) && (b.0 < e.0 || (b.0 == e.0 && b.1 <= e.1))
            && (t2.0 < e.0 || (t2.0 == e.0 && t2.1 <= e.1))),
        observation_current(o, t2) && (t1.0 < t2.0 || (t1.0 == t2.0 && t1.1 <= t2.1)) ==> observation_current(
            o,
            t1,
        ),
        (rfc3339_instant(o.expires_at@) matches Some(e) && (e.0 < t2.0 || (e.0 == t2.0 && e.1 < t2.1)))
            ==> !observation_current(o, t2),
{
}

impl CapabilityObservation {
    /// Malformed or expired evidence is never usable by a boundary (see
    /// `observation_current`); `now` is an instant as `(seconds, nanoseconds)`.
    pub fn is_current(&self, now: (i64, u32)) -> (r: bool)
        ensures
            r == observation_current(*self, now),
    {
        let observed = match parse_rfc3339(self.observed_at.as_str()) {
            None => return false,
            Some(t) => t,
        };
        let expires = match parse_rfc3339(self.expires_at.as_str()) {
            None => return false,
            Some(t) => t,
        };
        !crate::clock::is_before(expires, observed) && !crate::clock::is_before(expires, now)
    }
}

/// What looking at a command's path found: a file, something else,
/// nothing, or a failure to look.
#[derive(Clone, Copy, Debug, PartialEq, Eq, Structural)]
pub enum PathProbe {
    File,
    Other,
    Missing,
    Failed,
}

/// The capability a probe shows: a file can run; something else or
/// nothing cannot; a failure to look leaves it unknown.
pub open spec fn probe_capability(p: PathProbe) -> Capability {
    match p {
        PathProbe::File => Capability::Can,
        PathProbe::Other | PathProbe::Missing => Capability::Cannot,
        PathProbe::Failed => Capability::Unknown,
    }
}

/// Records what was observed of a command's path at `now`, good for
/// `lifetime_seconds`: observed at `now` and expiring `lifetime_seconds`
/// later, both as RFC 3339 UTC text to the second. Nothing is run and no
/// environment is inherited. `None` where either instant has no such text
/// (beyond the calendar chrono can hold).
pub fn observe_command(probe: PathProbe, mechanism: &str, now: (i64, u32), lifetime_seconds: i64) -> (r: Option<
    CapabilityObservation,
>)
    ensures
        match utc_seconds_text(now.0) {
            None => r is None,
            Some(observed) => if now.0 + lifetime_seconds > i64::MAX || now.0 + lifetime_seconds < i64::MIN {
                r is None
            } else {
                match utc_seconds_text((now.0 + lifetime_seconds) as i64) {
                    None => r is None,
                    Some(expires) => r matches Some(o) && o.schema@ == "kero/capability-observation/v1"@
                        && o.capability == probe_capability(probe) && o.mechanism@ == mechanism@
                        && o.observed_at@ == observed && o.expires_at@ == expires,
                }
            },
        },
        r matches Some(o) ==> (lifetime_seconds >= 1 && four_digit_year(now.0 as int) && four_digit_year(
            now.0 + lifetime_seconds,
        ) ==> observation_current(o, now)),
        r matches Some(o) ==> four_digit_year(now.0 + lifetime_seconds) ==> forall|t: (i64, u32)|
            instant_lt(((now.0 + lifetime_seconds) as i64, 0u32), t) ==> !#[trigger] observation_current(o, t),
{
    let observed = match format_utc_seconds(now.0) {
        None => return None,
        Some(t) => t,
    };
    let end = match now.0.checked_add(lifetime_seconds) {
        None => return None,
        Some(e) => e,
    };
    let expires = match format_utc_seconds(end) {
        None => return None,
        Some(t) => t,
    };
    let capability = match probe {
        PathProbe::File => Capability::Can,
        PathProbe::Other | PathProbe::Missing => Capability::Cannot,
        PathProbe::Failed => Capability::Unknown,
    };
    Some(
        CapabilityObservation {
            schema: String::from_str("kero/capability-observation/v1"),
            capability,
            mechanism: String::from_str(mechanism),
            observed_at: observed,
            expires_at: expires,
        },
    )
}

} // verus!
