//! The decision a monitor tick makes.
//!
//! Each tick the loop fetches the two heads independently — the failure
//! of one never suppresses the other — converts each fetch outcome to an
//! optional height, discarding the failure reason it has already logged,
//! evaluates staleness, and dispatches an alert exactly when the outcome
//! is stale. This module is that decision; the surrounding process does
//! the fetching, the waiting, and the sending, and no failure of either
//! ever ends the loop.

use vstd::prelude::*;

use crate::alert::Incident;
use crate::errors::FetchError;
use crate::evaluate::{evaluate, spec_lag, EvaluationOutcome};
use crate::height::Height;

verus! {

/// The height a fetch produced, if it succeeded.
pub open spec fn ok_height(r: Result<Height, FetchError>) -> Option<Height> {
    match r {
        Ok(h) => Some(h),
        Err(_) => None,
    }
}

/// Everything one tick decides: how the tick was classified, and the
/// incident to alert on, present exactly when the tick is stale.
#[derive(Clone, Copy, Debug)]
pub struct TickDecision {
    pub outcome: EvaluationOutcome,
    pub alert: Option<Incident>,
}

/// Decides one tick from the two fetch outcomes and the threshold.
///
/// The failure reasons are discarded here — staleness is a function of
/// the two optional heights alone — and an incident carries exactly this
/// tick's heights and lag.
pub fn run_tick(
    network: Result<Height, FetchError>,
    indexed: Result<Height, FetchError>,
    threshold: Height,
) -> (r: TickDecision)
    ensures
        (r.alert is Some) <==> (r.outcome is Stale),
        match (ok_height(network), ok_height(indexed)) {
            (Some(a), Some(b)) => {
                let lag = spec_lag(a.as_int(), b.as_int());
                &&& lag > threshold.as_int() ==> (r.outcome matches EvaluationOutcome::Stale(l)
                    && l.as_int() == lag && r.alert == Some(
                    Incident { network: a, indexed: b, lag: l },
                ))
                &&& lag <= threshold.as_int() ==> (r.outcome matches EvaluationOutcome::Healthy(
                    l,
                ) && l.as_int() == lag && r.alert is None)
            },
            _ => r.outcome == EvaluationOutcome::Unmeasurable && r.alert is None,
        },
{
    let net: Option<Height> = match network {
        Ok(h) => Some(h),
        Err(_) => None,
    };
    let idx: Option<Height> = match indexed {
        Ok(h) => Some(h),
        Err(_) => None,
    };
    let outcome = evaluate(net, idx, threshold);
    let alert: Option<Incident> = match (outcome, net, idx) {
        (EvaluationOutcome::Stale(l), Some(a), Some(b)) => Some(
            Incident { network: a, indexed: b, lag: l },
        ),
        _ => None,
    };
    TickDecision { outcome, alert }
}

} // verus!
