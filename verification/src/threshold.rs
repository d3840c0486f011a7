//! The alerting rule on the telemetry stream: one threshold with hysteresis.
//!
//! A reading below the threshold raises an alert once; the alert stays raised
//! until a reading above the threshold clears it. A reading at the threshold,
//! or one that is no number, changes nothing.

use vstd::prelude::*;
use crate::sample::Sample;

verus! {

/// The state of the rule.
#[derive(Debug, Clone, Copy, PartialEq, Eq, Structural)]
pub struct ThresholdState {
    /// The threshold that readings are held against.
    pub current_threshold: Sample,
    /// Whether a low alert has fired and has not been cleared.
    pub alerted: bool,
}

/// What the rule reports.
#[derive(Debug, Clone, Copy, PartialEq, Eq, Structural)]
pub enum AlertEvent {
    /// The reading fell below the threshold.
    Low(Sample),
    /// The reading rose above the threshold again.
    Recovered(Sample),
}

/// The event that `sample` causes in `state`.
pub open spec fn alert_for(sample: Sample, state: ThresholdState) -> Option<AlertEvent> {
    if sample.below(state.current_threshold) && !state.alerted {
        Some(AlertEvent::Low(sample))
    } else if sample.above(state.current_threshold) && state.alerted {
        Some(AlertEvent::Recovered(sample))
    } else {
        None
    }
}

/// The state that `sample` leaves behind.
pub open spec fn state_after(sample: Sample, state: ThresholdState) -> ThresholdState {
    ThresholdState {
        current_threshold: state.current_threshold,
        alerted: if sample.below(state.current_threshold) {
            true
        } else if sample.above(state.current_threshold) {
            false
        } else {
            state.alerted
        },
    }
}

/// `state` with its threshold replaced.
pub open spec fn with_threshold(state: ThresholdState, threshold: Sample) -> ThresholdState {
    ThresholdState { current_threshold: threshold, alerted: state.alerted }
}

impl ThresholdState {
    /// The state at startup: the given threshold, no alert raised.
    pub fn new(threshold: Sample) -> (state: ThresholdState)
        ensures
            state.current_threshold == threshold,
            !state.alerted,
    {
        ThresholdState { current_threshold: threshold, alerted: false }
    }

    /// Replaces the threshold. Whether an alert is raised stays as it is: only
    /// the next reading is held against the new threshold.
    pub fn set_threshold(&mut self, threshold: Sample)
        ensures
            *final(self) == with_threshold(*old(self), threshold),
    {
        self.current_threshold = threshold;
    }
}

/// Holds one reading against the threshold.
pub fn evaluate(sample: Sample, state: &mut ThresholdState) -> (event: Option<AlertEvent>)
    ensures
        event == alert_for(sample, *old(state)),
        *final(state) == state_after(sample, *old(state)),
{
    if sample.lt(&state.current_threshold) {
        if state.alerted {
            None
        } else {
            state.alerted = true;
            Some(AlertEvent::Low(sample))
        }
    } else if sample.gt(&state.current_threshold) {
        if state.alerted {
            state.alerted = false;
            Some(AlertEvent::Recovered(sample))
        } else {
            None
        }
    } else {
        None
    }
}

/// An event is reported exactly when the alert flips, and tells which way.
pub proof fn lemma_event_iff_flip(sample: Sample, state: ThresholdState)
    ensures
        alert_for(sample, state) is Some <==> state_after(sample, state).alerted != state.alerted,
        alert_for(sample, state) == Some(AlertEvent::Low(sample)) <==> !state.alerted
            && state_after(sample, state).alerted,
        alert_for(sample, state) == Some(AlertEvent::Recovered(sample)) <==> state.alerted
            && !state_after(sample, state).alerted,
{
}

/// Alerts do not repeat: against an unchanged threshold, the reading that
/// follows a low alert never raises a second one, and the reading that
/// follows a recovery never reports a second recovery.
pub proof fn lemma_alerts_alternate(first: Sample, second: Sample, state: ThresholdState)
    ensures
        alert_for(first, state) is Some && alert_for(second, state_after(first, state)) is Some
            ==> (alert_for(first, state)->0 is Low) != (alert_for(
            second,
            state_after(first, state),
        )->0 is Low),
{
}

/// A new threshold decides the next reading alone: two states that agree on
/// the alert report the same event and end in the same state once both have
/// been given the same threshold, whatever their thresholds were before.
pub proof fn lemma_next_sample_uses_new_threshold(
    one: ThresholdState,
    other: ThresholdState,
    threshold: Sample,
    sample: Sample,
)
    requires
        one.alerted == other.alerted,
    ensures
        with_threshold(one, threshold).alerted == one.alerted,
        alert_for(sample, with_threshold(one, threshold)) == alert_for(
            sample,
            with_threshold(other, threshold),
        ),
        state_after(sample, with_threshold(one, threshold)) == state_after(
            sample,
            with_threshold(other, threshold),
        ),
{
}

} // verus!
