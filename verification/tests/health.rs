//! The adverse-selection alarm and the analytics tuning.

use updown_bot::decimal::{Amount, Figure};
use updown_bot::floatkey::{bits_of_key, key_of_bits};
use updown_bot::health::{AdverseSelectionMonitor, AdverseSelectionState};
use updown_bot::params::{AdverseSelectionParams, AnalyticsParams, ParamsError};

fn key(x: f64) -> i64 {
    key_of_bits(x.to_bits())
}

fn dec(text: &str) -> Amount {
    Amount::parse(text).unwrap()
}

fn rate(text: &str) -> Figure {
    Figure::parse(text).unwrap()
}

fn params(min_sample: u32, window: u32, threshold: f64) -> AdverseSelectionParams {
    AdverseSelectionParams { min_sample, negative_threshold: key(threshold), window }
}

fn mean_5s(m: &AdverseSelectionMonitor) -> Option<f64> {
    let recent: Vec<f64> =
        m.recent().into_iter().map(|k| f64::from_bits(bits_of_key(k))).collect();
    if recent.is_empty() {
        None
    } else {
        Some(recent.iter().sum::<f64>() / recent.len() as f64)
    }
}

fn observe_5s(
    m: &mut AdverseSelectionMonitor,
    markout: f64,
) -> Option<(AdverseSelectionState, AdverseSelectionState)> {
    m.push_5s(key(markout));
    let mean = mean_5s(m).unwrap();
    m.apply_mean(key(mean))
}

#[test]
fn order_keys_keep_the_order() {
    let readings = [-1.0e300, -2.5, -1.0, -1.0e-300, 0.0, 1.0e-300, 0.5, 1.0, 1.0e300];
    for pair in readings.windows(2) {
        assert!(key(pair[0]) < key(pair[1]));
    }
    for x in readings {
        assert_eq!(f64::from_bits(bits_of_key(key(x))), x);
    }
    assert_eq!(key(-0.0), key(0.0));
}

#[test]
fn insufficient_until_min_sample_then_judges() {
    let mut m = AdverseSelectionMonitor::new(params(3, 10, 0.0));
    // Below the sample floor: no transition, stays InsufficientSample.
    assert_eq!(observe_5s(&mut m, -1.0), None);
    assert_eq!(observe_5s(&mut m, -1.0), None);
    assert_eq!(m.state(), AdverseSelectionState::InsufficientSample);
    // The third (negative) markout crosses the floor and trips Alarm.
    assert_eq!(
        observe_5s(&mut m, -1.0),
        Some((AdverseSelectionState::InsufficientSample, AdverseSelectionState::Alarm))
    );
    assert_eq!(m.state(), AdverseSelectionState::Alarm);
    assert_eq!(m.sample_count(), 3);
}

#[test]
fn positive_markouts_reach_ok() {
    let mut m = AdverseSelectionMonitor::new(params(2, 10, 0.0));
    assert_eq!(observe_5s(&mut m, 0.01), None); // still InsufficientSample
    // Second positive markout: the mean is above 0.
    assert_eq!(
        observe_5s(&mut m, 0.01),
        Some((AdverseSelectionState::InsufficientSample, AdverseSelectionState::Healthy))
    );
}

#[test]
fn alarm_then_recovers_to_ok_latched_once_each() {
    let mut m = AdverseSelectionMonitor::new(params(2, 4, 0.0));
    observe_5s(&mut m, -0.02);
    let t = observe_5s(&mut m, -0.02); // Alarm
    assert_eq!(
        t,
        Some((AdverseSelectionState::InsufficientSample, AdverseSelectionState::Alarm))
    );
    // A positive markout lifts the rolling mean above 0: it recovers, once.
    let recover = observe_5s(&mut m, 0.05);
    assert_eq!(recover, Some((AdverseSelectionState::Alarm, AdverseSelectionState::Healthy)));
    // No further transition while it stays healthy.
    assert_eq!(observe_5s(&mut m, 0.05), None);
}

#[test]
fn rolling_window_forgets_old_markouts() {
    // Window of 2: only the last two markouts matter for the mean.
    let mut m = AdverseSelectionMonitor::new(params(1, 2, 0.0));
    observe_5s(&mut m, -1.0); // mean -1: Alarm
    assert_eq!(m.state(), AdverseSelectionState::Alarm);
    observe_5s(&mut m, 1.0); // window [-1, 1], mean 0: not below 0
    observe_5s(&mut m, 1.0); // window [1, 1], mean 1
    assert_eq!(m.state(), AdverseSelectionState::Healthy);
    assert_eq!(mean_5s(&m), Some(1.0));
}

#[test]
fn defaults_are_valid_and_consistent() {
    let p = AnalyticsParams::default();
    assert!(p.validate().is_ok());
    assert_eq!(p.default_fee_rate, rate("0.07"));
    assert_eq!(p.default_rebate_rate, rate("0.20"));
    assert_eq!(p.taker_budget_per_window, dec("10"));
    // The rolling window should be able to reach the sample floor.
    assert!(p.adverse.window >= p.adverse.min_sample);
}

#[test]
fn budget_zero_allowed_negative_rejected() {
    // Zero means no budget; still valid.
    let zero = AnalyticsParams {
        taker_budget_per_window: Amount::zero(),
        ..AnalyticsParams::default()
    };
    assert!(zero.validate().is_ok());

    let negative = AnalyticsParams {
        taker_budget_per_window: dec("-1"),
        ..AnalyticsParams::default()
    };
    assert!(matches!(negative.validate(), Err(ParamsError::Negative("taker_budget_per_window"))));
}

#[test]
fn validate_rejects_bad_values() {
    let bad_sample = AnalyticsParams {
        adverse: AdverseSelectionParams { min_sample: 0, ..AdverseSelectionParams::default() },
        ..AnalyticsParams::default()
    };
    assert!(matches!(bad_sample.validate(), Err(ParamsError::NotPositive(_))));

    let bad_rate =
        AnalyticsParams { default_rebate_rate: rate("1.5"), ..AnalyticsParams::default() };
    assert!(matches!(bad_rate.validate(), Err(ParamsError::RateOutOfRange { .. })));

    let bad_threshold = AnalyticsParams {
        adverse: AdverseSelectionParams {
            negative_threshold: key(f64::NAN),
            ..AdverseSelectionParams::default()
        },
        ..AnalyticsParams::default()
    };
    assert!(matches!(bad_threshold.validate(), Err(ParamsError::NotFinite(_))));
}

#[test]
fn every_count_must_be_positive() {
    let d = AnalyticsParams::default();
    let bad = [
        (
            AnalyticsParams {
                adverse: AdverseSelectionParams { window: 0, ..d.adverse },
                ..d
            },
            "adverse.window",
        ),
        (AnalyticsParams { min_sample_windows: 0, ..d }, "min_sample_windows"),
        (AnalyticsParams { snapshot_ring_max: 0, ..d }, "snapshot_ring_max"),
    ];
    for (p, field) in bad {
        assert_eq!(p.validate(), Err(ParamsError::NotPositive(field)));
    }
    let fee = AnalyticsParams { default_fee_rate: rate("-0.01"), ..d };
    assert_eq!(
        fee.validate(),
        Err(ParamsError::RateOutOfRange { field: "default_fee_rate", value: rate("-0.01") })
    );
}

#[test]
fn a_complaint_about_the_tuning_names_its_field() {
    let d = AnalyticsParams::default();
    let said = |p: AnalyticsParams| p.validate().unwrap_err().text();
    assert_eq!(said(AnalyticsParams { snapshot_ring_max: 0, ..d }), "snapshot_ring_max must be > 0");
    assert_eq!(
        said(AnalyticsParams { taker_budget_per_window: dec("-1"), ..d }),
        "taker_budget_per_window must be >= 0"
    );
    assert_eq!(
        said(AnalyticsParams { default_rebate_rate: rate("1.50"), ..d }),
        "default_rebate_rate must be in [0, 1], got 1.50"
    );
    let adverse = AdverseSelectionParams { negative_threshold: key(f64::INFINITY), ..d.adverse };
    assert_eq!(said(AnalyticsParams { adverse, ..d }), "adverse.negative_threshold must be finite");
}
