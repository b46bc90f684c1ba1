//! Realized results by strategy.

use updown_bot::datekey::DayKey;
use updown_bot::decimal::Amount;
use updown_bot::driver_matrix::{DriverFill, DriverMatrix, FillDriver, SeriesDriver};
use updown_bot::types::{Asset, Outcome, Series, WindowDuration, WindowId};

const OPEN_MS: i64 = 1_781_481_600_000; // 2026-06-15T00:00:00Z

fn dec(text: &str) -> Amount {
    Amount::parse(text).unwrap()
}

fn series() -> Series {
    Series { asset: Asset::Eth, duration: WindowDuration::M5 }
}

fn window(open_ms: i64) -> WindowId {
    WindowId { series: series(), open_ms }
}

fn fill(
    driver: FillDriver,
    outcome: Outcome,
    shares: &str,
    price: &str,
    fee: &str,
    ts_ms: i64,
) -> DriverFill {
    DriverFill { driver, outcome, shares: dec(shares), price: dec(price), fee: dec(fee), ts_ms }
}

/// The share of a cell's fills that won.
fn win_pct(resolved: u32, winning: u32) -> Option<f64> {
    if resolved == 0 {
        None
    } else {
        Some(f64::from(winning) / f64::from(resolved))
    }
}

#[test]
fn marks_fills_to_outcome_and_tracks_win_pct() {
    let mut m = DriverMatrix::new();
    // Model buys 10 Up @ 0.80, fee 0.10; momentum buys 5 Down @ 0.30, fee 0.02.
    m.record_fill(
        window(OPEN_MS),
        fill(FillDriver::Model, Outcome::Up, "10", "0.80", "0.10", OPEN_MS + 1),
    );
    m.record_fill(
        window(OPEN_MS),
        fill(FillDriver::Momentum, Outcome::Down, "5", "0.30", "0.02", OPEN_MS + 2),
    );
    assert_eq!(m.waiting_windows(), 1);
    m.settle(window(OPEN_MS), Outcome::Up);

    let day = DayKey::from_ts(OPEN_MS);
    let model = m.cell(series(), FillDriver::Model, day).unwrap();
    // payoff 10 - cost (8 + 0.10) = +1.90; won.
    assert_eq!(model.realized_pnl, dec("1.90"));
    assert_eq!(model.resolved_fills, 1);
    assert_eq!(model.winning_fills, 1);
    assert_eq!(win_pct(model.resolved_fills, model.winning_fills), Some(1.0));

    let mom = m.cell(series(), FillDriver::Momentum, day).unwrap();
    // Down lost: payoff 0 - cost (1.5 + 0.02) = -1.52.
    assert_eq!(mom.realized_pnl, dec("-1.52"));
    assert_eq!(win_pct(mom.resolved_fills, mom.winning_fills), Some(0.0));
    // What waited is gone after the settlement.
    assert_eq!(m.waiting_windows(), 0);
}

#[test]
fn totals_aggregate_across_days() {
    let mut m = DriverMatrix::new();
    let next_day = OPEN_MS + 86_400_000;
    // Two windows on two days, both MakerCore Up wins.
    m.record_fill(
        window(OPEN_MS),
        fill(FillDriver::MakerCore, Outcome::Up, "10", "0.50", "0", OPEN_MS + 1),
    );
    m.settle(window(OPEN_MS), Outcome::Up);
    m.record_fill(
        window(next_day),
        fill(FillDriver::MakerCore, Outcome::Up, "10", "0.50", "0", next_day + 1),
    );
    m.settle(window(next_day), Outcome::Up);
    let totals = m.totals();
    let key = SeriesDriver { series: series(), driver: FillDriver::MakerCore };
    let cell = totals.get(&key).unwrap();
    // Each: payoff 10 - cost 5 = +5. Two windows: +10, 2 resolved, 2 won.
    assert_eq!(cell.realized_pnl, dec("10"));
    assert_eq!(cell.resolved_fills, 2);
    assert_eq!(cell.winning_fills, 2);
    // One day alone.
    let day = m.totals_for_day(DayKey::from_ts(next_day));
    assert_eq!(day.get(&key).unwrap().realized_pnl, dec("5"));
}

#[test]
fn two_instances_fed_the_same_sequence_agree() {
    let build = || {
        let mut m = DriverMatrix::new();
        for f in [
            fill(FillDriver::Model, Outcome::Up, "10", "0.80", "0.10", OPEN_MS + 1),
            fill(FillDriver::Momentum, Outcome::Down, "5", "0.30", "0.02", OPEN_MS + 2),
            fill(FillDriver::MakerCore, Outcome::Up, "20", "0.45", "0", OPEN_MS + 3),
        ] {
            m.record_fill(window(OPEN_MS), f);
        }
        m.settle(window(OPEN_MS), Outcome::Up);
        m
    };
    assert_eq!(format!("{:?}", build().totals()), format!("{:?}", build().totals()));
    assert_eq!(build().totals().len(), 3);
}

#[test]
fn a_settled_window_is_not_marked_again() {
    let mut m = DriverMatrix::new();
    let f = fill(FillDriver::Model, Outcome::Up, "10", "0.80", "0.10", OPEN_MS + 1);
    m.record_fill(window(OPEN_MS), f);
    m.settle(window(OPEN_MS), Outcome::Up);
    let once = format!("{:?}", m.totals());
    m.settle(window(OPEN_MS), Outcome::Up);
    m.settle(window(OPEN_MS), Outcome::Down);
    assert_eq!(format!("{:?}", m.totals()), once);
    assert_eq!(m.waiting_windows(), 0);
}

#[test]
fn settling_unknown_window_is_a_noop() {
    let mut m = DriverMatrix::new();
    m.settle(window(OPEN_MS), Outcome::Up);
    assert!(m.totals().is_empty());
}

#[test]
fn old_cells_are_pruned_by_retention_horizon() {
    let mut m = DriverMatrix::new();
    // A very old fill (day 0) and then a fresh one.
    m.record_fill(
        window(OPEN_MS),
        fill(FillDriver::MakerCore, Outcome::Up, "10", "0.50", "0", 1),
    );
    m.settle(window(0), Outcome::Up);
    let recent = OPEN_MS;
    m.record_fill(
        window(recent),
        fill(FillDriver::MakerCore, Outcome::Up, "10", "0.50", "0", recent + 1),
    );
    m.settle(window(recent), Outcome::Up);
    // The ancient cell (day 0) is far more than 31 days before the recent day.
    let old_day = DayKey::from_days(0);
    assert!(m.cell(series(), FillDriver::MakerCore, old_day).is_none());
    let new_day = DayKey::from_ts(recent);
    assert!(m.cell(series(), FillDriver::MakerCore, new_day).is_some());
}

#[test]
fn retention_keeps_the_horizon_day_itself() {
    let mut m = DriverMatrix::new();
    let day = 86_400_000;
    m.record_fill(
        window(OPEN_MS),
        fill(FillDriver::Late, Outcome::Up, "1", "0.50", "0", OPEN_MS + 1),
    );
    m.settle(window(OPEN_MS), Outcome::Up);
    let later = OPEN_MS + 31 * day;
    m.record_fill(
        window(later),
        fill(FillDriver::Late, Outcome::Down, "1", "0.50", "0", later + 1),
    );
    m.settle(window(later), Outcome::Up);
    assert!(m.cell(series(), FillDriver::Late, DayKey::from_ts(OPEN_MS)).is_some());
    let past = OPEN_MS + 32 * day;
    m.record_fill(
        window(past),
        fill(FillDriver::Late, Outcome::Down, "1", "0.50", "0", past + 1),
    );
    m.settle(window(past), Outcome::Up);
    assert!(m.cell(series(), FillDriver::Late, DayKey::from_ts(OPEN_MS)).is_none());
}

#[test]
fn windows_that_never_settle_are_capped() {
    let mut m = DriverMatrix::new();
    for i in 0..300 {
        let open = OPEN_MS + i * 300_000;
        m.record_fill(window(open), fill(FillDriver::Late, Outcome::Up, "1", "0.50", "0", open + 1));
    }
    assert_eq!(m.waiting_windows(), 256);
    // The first that opened went first.
    m.settle(window(OPEN_MS + 43 * 300_000), Outcome::Up);
    assert!(m.totals().is_empty());
    m.settle(window(OPEN_MS + 44 * 300_000), Outcome::Up);
    assert_eq!(m.totals().len(), 1);
    assert_eq!(m.waiting_windows(), 255);
}
