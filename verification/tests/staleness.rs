use pulse_monitor::alert::{render_alert_message, build_alert_message};
use pulse_monitor::errors::FetchError;
use pulse_monitor::evaluate::evaluate;
use pulse_monitor::tick::run_tick;
use pulse_monitor::{EvaluationOutcome, Height, Incident};

fn h(v: u64) -> Height {
    Height::from_u64(v)
}

#[test]
fn healthy_at_threshold() {
    // network=1000, indexed=990, threshold=10: lag is exactly the
    // threshold, which is still healthy.
    let r = evaluate(Some(h(1000)), Some(h(990)), h(10));
    assert_eq!(r, EvaluationOutcome::Healthy(h(10)));
}

#[test]
fn stale_just_over_threshold() {
    let r = evaluate(Some(h(1000)), Some(h(989)), h(10));
    assert_eq!(r, EvaluationOutcome::Stale(h(11)));
}

#[test]
fn stale_iff_lag_exceeds_threshold() {
    for (a, b, t) in [(100u64, 50u64, 49u64), (100, 50, 50), (100, 50, 51), (7, 7, 0)] {
        let r = evaluate(Some(h(a)), Some(h(b)), h(t));
        if a - b > t {
            assert_eq!(r, EvaluationOutcome::Stale(h(a - b)));
        } else {
            assert_eq!(r, EvaluationOutcome::Healthy(h(a - b)));
        }
    }
}

#[test]
fn indexed_ahead_is_healthy_lag_zero() {
    // Saturating subtraction: an indexed head ahead of the network head
    // is lag zero, healthy for every threshold, even zero.
    assert_eq!(evaluate(Some(h(5)), Some(h(9)), h(0)), EvaluationOutcome::Healthy(h(0)));
    assert_eq!(evaluate(Some(h(0)), Some(h(u64::MAX)), h(3)), EvaluationOutcome::Healthy(h(0)));
}

#[test]
fn absent_inputs_are_unmeasurable() {
    assert_eq!(evaluate(None, Some(h(7)), h(10)), EvaluationOutcome::Unmeasurable);
    assert_eq!(evaluate(Some(h(7)), None, h(10)), EvaluationOutcome::Unmeasurable);
    assert_eq!(evaluate(None, None, h(10)), EvaluationOutcome::Unmeasurable);
}

#[test]
fn healthy_tick_dispatches_nothing() {
    let d = run_tick(Ok(h(1000)), Ok(h(990)), h(10));
    assert_eq!(d.outcome, EvaluationOutcome::Healthy(h(10)));
    assert!(d.alert.is_none());
}

#[test]
fn stale_tick_dispatches_exactly_one_incident() {
    let d = run_tick(Ok(h(1000)), Ok(h(989)), h(10));
    assert_eq!(d.outcome, EvaluationOutcome::Stale(h(11)));
    let incident = d.alert.expect("a stale tick owes an alert");
    assert_eq!(incident, Incident { network: h(1000), indexed: h(989), lag: h(11) });
    let msg = render_alert_message(&incident, "2024-01-01 00:00:00 EST");
    assert_eq!(
        msg,
        "Cursor is 11 blocks behind!\nTimestamp: 2024-01-01 00:00:00 EST\nNetwork block: 1000\nCursor block: 989"
    );
}

#[test]
fn failed_head_fetch_is_unmeasurable_and_quiet() {
    // A transport failure on the provider side with a good cursor read:
    // no alert, no panic, the loop can simply go on to the next tick.
    let d = run_tick(Err(FetchError::Transport), Ok(h(500)), h(10));
    assert_eq!(d.outcome, EvaluationOutcome::Unmeasurable);
    assert!(d.alert.is_none());
    let d2 = run_tick(Err(FetchError::Transport), Err(FetchError::DataShape), h(10));
    assert_eq!(d2.outcome, EvaluationOutcome::Unmeasurable);
    assert!(d2.alert.is_none());
    let d3 = run_tick(Err(FetchError::Configuration), Ok(h(500)), h(10));
    assert_eq!(d3.outcome, EvaluationOutcome::Unmeasurable);
    assert!(d3.alert.is_none());
}

#[test]
fn built_message_carries_the_incident() {
    let incident = Incident { network: h(1000), indexed: h(989), lag: h(11) };
    let msg = build_alert_message(&incident);
    assert!(msg.starts_with("Cursor is 11 blocks behind!\nTimestamp: "));
    assert!(msg.ends_with("\nNetwork block: 1000\nCursor block: 989"));
}
