//! The alert dispatcher's message contract.
//!
//! A stale tick produces one incident — the two heights and the lag of
//! that tick, never carried over from an earlier one — and one fixed-shape
//! message rendering it, with a timestamp in the operators' time zone.
//! Sending the message is the surrounding process's concern.

use vstd::prelude::*;

use crate::codec::dec_digits_of;
use crate::height::Height;

verus! {

/// The ephemeral record of a single stale tick, used only to render one
/// alert message.
#[derive(Clone, Copy, Debug, PartialEq, Eq, Structural)]
pub struct Incident {
    /// The network head of the tick.
    pub network: Height,
    /// The indexed head of the tick.
    pub indexed: Height,
    /// How far the indexed head is behind, floored at zero.
    pub lag: Height,
}

/// The fixed shape of an alert message.
pub open spec fn spec_alert_message(network: int, indexed: int, lag: int, ts: Seq<char>) -> Seq<
    char,
> {
    "Cursor is "@ + dec_digits_of(lag as nat) + " blocks behind!\nTimestamp: "@ + ts
        + "\nNetwork block: "@ + dec_digits_of(network as nat) + "\nCursor block: "@
        + dec_digits_of(indexed as nat)
}

/// Renders the alert message for an incident, with the given timestamp
/// text.
pub fn render_alert_message(incident: &Incident, timestamp: &str) -> (r: String)
    ensures
        r@ == spec_alert_message(
            incident.network.as_int(),
            incident.indexed.as_int(),
            incident.lag.as_int(),
            timestamp@,
        ),
{
    let mut out = String::from_str("Cursor is ");
    let lag_s = crate::codec::to_dec_string(&incident.lag);
    out.append(lag_s.as_str());
    out.append(" blocks behind!\nTimestamp: ");
    out.append(timestamp);
    out.append("\nNetwork block: ");
    let net_s = crate::codec::to_dec_string(&incident.network);
    out.append(net_s.as_str());
    out.append("\nCursor block: ");
    let idx_s = crate::codec::to_dec_string(&incident.indexed);
    out.append(idx_s.as_str());
    out
}

/// Relies on chrono::Utc::now, chrono's DateTime::with_timezone and
/// DateTime::format, and chrono-tz's US::Eastern zone: the current
/// wall-clock time rendered in the US Eastern time zone. The result
/// depends on the clock, so nothing is promised of it.
#[verifier::external_body]
fn now_eastern_string() -> String {
    chrono::Utc::now().with_timezone(&chrono_tz::US::Eastern).format(
        "%Y-%m-%d %H:%M:%S %Z",
    ).to_string()
}

/// Renders the alert message for an incident, timestamped with the
/// current wall-clock time: the message has the fixed alert shape for
/// this incident's heights and lag, under some timestamp text.
pub fn build_alert_message(incident: &Incident) -> (r: String)
    ensures
        exists|ts: Seq<char>|
            r@ == spec_alert_message(
                incident.network.as_int(),
                incident.indexed.as_int(),
                incident.lag.as_int(),
                ts,
            ),
{
    let ts = now_eastern_string();
    let r = render_alert_message(incident, ts.as_str());
    proof {
        assert(r@ == spec_alert_message(
            incident.network.as_int(),
            incident.indexed.as_int(),
            incident.lag.as_int(),
            ts@,
        ));
    }
    r
}

} // verus!
