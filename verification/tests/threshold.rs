use mqtt_discord_bridge::config::DEFAULT_THRESHOLD_BITS;
use mqtt_discord_bridge::sample::Sample;
use mqtt_discord_bridge::threshold::{evaluate, AlertEvent, ThresholdState};

fn sample(x: f32) -> Sample {
    Sample::from_bits(x.to_bits())
}

fn numbers() -> Vec<f32> {
    vec![
        0.0,
        -0.0,
        1.0,
        -1.0,
        10.0,
        10.1,
        10.3,
        10.4,
        10.5,
        9.9,
        -10.3,
        f32::MIN_POSITIVE,
        -f32::MIN_POSITIVE,
        f32::from_bits(1),
        f32::from_bits(0x8000_0001),
        f32::MAX,
        f32::MIN,
        f32::INFINITY,
        f32::NEG_INFINITY,
        f32::NAN,
        -f32::NAN,
        f32::from_bits(0x7f80_0001),
        f32::from_bits(0xffff_ffff),
        f32::EPSILON,
        1.0e-40,
        -1.0e-40,
        3.4e38,
    ]
}

#[test]
fn samples_are_ordered_as_the_numbers_are() {
    for a in numbers() {
        for b in numbers() {
            assert_eq!(sample(a).lt(&sample(b)), a < b, "{} < {}", a, b);
            assert_eq!(sample(a).gt(&sample(b)), a > b, "{} > {}", a, b);
        }
    }
}

#[test]
fn sample_keeps_its_bits() {
    assert_eq!(sample(10.3).to_bits(), 10.3f32.to_bits());
    assert_eq!(Sample::from_bits(0x4124_cccd), Sample { bits: 0x4124_cccd });
}

#[test]
fn default_threshold_is_ten_point_three() {
    assert_eq!(DEFAULT_THRESHOLD_BITS, 10.3f32.to_bits());
}

#[test]
fn new_state_is_not_alerted() {
    let state = ThresholdState::new(sample(10.3));
    assert_eq!(state, ThresholdState { current_threshold: sample(10.3), alerted: false });
}

#[test]
fn crossing_down_and_up_reports_one_low_and_one_recovered() {
    let mut state = ThresholdState::new(sample(10.3));
    assert_eq!(evaluate(sample(10.5), &mut state), None);
    assert!(!state.alerted);
    assert_eq!(evaluate(sample(10.1), &mut state), Some(AlertEvent::Low(sample(10.1))));
    assert!(state.alerted);
    assert_eq!(evaluate(sample(10.0), &mut state), None);
    assert!(state.alerted);
    assert_eq!(evaluate(sample(10.4), &mut state), Some(AlertEvent::Recovered(sample(10.4))));
    assert!(!state.alerted);
    assert_eq!(state.current_threshold, sample(10.3));
}

#[test]
fn sample_at_threshold_changes_nothing() {
    let mut clear = ThresholdState::new(sample(10.3));
    assert_eq!(evaluate(sample(10.3), &mut clear), None);
    assert_eq!(clear, ThresholdState { current_threshold: sample(10.3), alerted: false });
    let mut raised = ThresholdState { current_threshold: sample(10.3), alerted: true };
    assert_eq!(evaluate(sample(10.3), &mut raised), None);
    assert_eq!(raised, ThresholdState { current_threshold: sample(10.3), alerted: true });
}

#[test]
fn sample_that_is_no_number_changes_nothing() {
    let mut clear = ThresholdState::new(sample(10.3));
    assert_eq!(evaluate(sample(f32::NAN), &mut clear), None);
    assert!(!clear.alerted);
    let mut raised = ThresholdState { current_threshold: sample(10.3), alerted: true };
    assert_eq!(evaluate(sample(f32::NAN), &mut raised), None);
    assert!(raised.alerted);
}

#[test]
fn set_threshold_keeps_the_alert_as_it_is() {
    let mut clear = ThresholdState::new(sample(10.3));
    clear.set_threshold(sample(12.0));
    assert_eq!(clear, ThresholdState { current_threshold: sample(12.0), alerted: false });
    let mut raised = ThresholdState { current_threshold: sample(10.3), alerted: true };
    raised.set_threshold(sample(9.0));
    assert_eq!(raised, ThresholdState { current_threshold: sample(9.0), alerted: true });
}

#[test]
fn next_sample_is_held_against_the_new_threshold() {
    let mut state = ThresholdState::new(sample(10.3));
    assert_eq!(evaluate(sample(11.0), &mut state), None);
    state.set_threshold(sample(12.0));
    assert!(!state.alerted);
    assert_eq!(evaluate(sample(11.0), &mut state), Some(AlertEvent::Low(sample(11.0))));
    state.set_threshold(sample(10.0));
    assert!(state.alerted);
    assert_eq!(evaluate(sample(11.0), &mut state), Some(AlertEvent::Recovered(sample(11.0))));
}

#[test]
fn alerts_never_repeat() {
    let mut state = ThresholdState::new(sample(10.3));
    let mut last_was_low = false;
    for x in [9.0f32, 8.0, 10.2, 10.3, 11.0, 12.0, 10.31, 10.29, 10.29, 10.5, 1.0, 100.0] {
        if let Some(event) = evaluate(sample(x), &mut state) {
            let low = matches!(event, AlertEvent::Low(_));
            assert_ne!(low, last_was_low);
            last_was_low = low;
        }
    }
}
