//! The staleness evaluator: the pure threshold policy at the heart of the
//! monitor.
//!
//! Given the two optionally-available heights of one tick and the alert
//! threshold, [`evaluate`] computes the lag (difference floored at zero)
//! and classifies the tick. An alert is owed exactly when the outcome is
//! [`EvaluationOutcome::Stale`].

use vstd::prelude::*;

use crate::height::Height;

verus! {

/// The classification of one tick.
#[derive(Clone, Copy, Debug, PartialEq, Eq, Structural)]
pub enum EvaluationOutcome {
    /// One or both upstream signals were absent this tick; nothing can be
    /// said and nothing is alerted.
    Unmeasurable,
    /// Both heights were present and the lag is within the threshold.
    Healthy(Height),
    /// Both heights were present and the lag strictly exceeds the
    /// threshold; this is the sole condition that triggers an alert.
    Stale(Height),
}

/// The lag between a network head `a` and an indexed head `b`: the
/// difference floored at zero.
pub open spec fn spec_lag(a: int, b: int) -> int {
    if a >= b {
        a - b
    } else {
        0
    }
}

/// Classifies one tick from the two fetched heights and the threshold.
///
/// With both heights present the outcome carries the lag and is `Stale`
/// exactly when the lag strictly exceeds the threshold — a lag equal to
/// the threshold is still `Healthy`, and an indexed head ahead of the
/// network head gives lag zero, which is `Healthy` for every threshold.
/// With either height absent the outcome is `Unmeasurable`.
pub fn evaluate(network: Option<Height>, indexed: Option<Height>, threshold: Height) -> (r:
    EvaluationOutcome)
    ensures
        match (network, indexed) {
            (Some(a), Some(b)) => {
                let lag = spec_lag(a.as_int(), b.as_int());
                &&& (lag > threshold.as_int() ==> (r matches EvaluationOutcome::Stale(l)
                    && l.as_int() == lag))
                &&& (lag <= threshold.as_int() ==> (r matches EvaluationOutcome::Healthy(l)
                    && l.as_int() == lag))
            },
            _ => r == EvaluationOutcome::Unmeasurable,
        },
{
    match (network, indexed) {
        (Some(a), Some(b)) => {
            let lag = a.saturating_sub(&b);
            if threshold.lt(&lag) {
                EvaluationOutcome::Stale(lag)
            } else {
                EvaluationOutcome::Healthy(lag)
            }
        },
        _ => EvaluationOutcome::Unmeasurable,
    }
}

/// An indexed head at or ahead of the network head always evaluates as
/// healthy with lag zero: the saturating lag never underflows, so no
/// threshold, however small, can make such a tick stale.
pub proof fn lemma_ahead_is_healthy(a: int, b: int, t: int)
    requires
        a < b,
        t >= 0,
    ensures
        spec_lag(a, b) == 0,
        !(spec_lag(a, b) > t),
{
}

} // verus!
