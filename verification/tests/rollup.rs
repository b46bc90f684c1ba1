//! Daily aggregates and the comparison of series.

use updown_bot::attribution::WindowAttribution;
use updown_bot::datekey::DayKey;
use updown_bot::decimal::Amount;
use updown_bot::floatkey::{bits_of_key, key_of_bits};
use updown_bot::health::AdverseSelectionState;
use updown_bot::rollup::{
    markout_bin, ComparisonWindow, RollupStore, SeriesAggregate, SeriesComparison,
    SeriesComparisonRow, SortColumn, SortFigure, MARKOUT_BIN_COUNT,
};
use updown_bot::types::{Asset, Mode, Outcome, Series, WindowDuration, WindowId};

const DAY0: i64 = 1_781_481_600_000; // 2026-06-15T00:00:00Z

fn dec(text: &str) -> Amount {
    Amount::parse(text).unwrap()
}

fn keys(samples: &[f64]) -> Vec<i64> {
    samples.iter().map(|x| key_of_bits(x.to_bits())).collect()
}

fn reading(key: i64) -> f64 {
    f64::from_bits(bits_of_key(key))
}

fn series() -> Series {
    Series { asset: Asset::Btc, duration: WindowDuration::M5 }
}

fn attribution(realized: &str, ts_ms: i64) -> WindowAttribution {
    attribution_notional(realized, ts_ms, "0")
}

fn attribution_notional(realized: &str, ts_ms: i64, taker_notional: &str) -> WindowAttribution {
    WindowAttribution {
        window: WindowId { series: series(), open_ms: ts_ms },
        mode: Mode::Paper,
        outcome: Outcome::Up,
        locked_pair_pnl: dec(realized),
        excess_pnl: Amount::zero(),
        settlement_remainder: Amount::zero(),
        taker_fees: Amount::zero(),
        estimated_rebate: dec("0.1"),
        realized_pnl: dec(realized),
        maker_fills: 4,
        taker_fills: 1,
        taker_notional: dec(taker_notional),
        matched_pairs: Amount::zero(),
        merged_pairs: Amount::zero(),
        stranded_shares: Amount::zero(),
        pair_cost: None,
        ts_ms,
    }
}

fn fold(store: &mut RollupStore, a: &WindowAttribution, samples: &[f64]) {
    store.fold(a, &keys(samples));
}

#[test]
fn folds_into_utc_day_buckets() {
    let mut store = RollupStore::new();
    // Same UTC day, two windows.
    fold(&mut store, &attribution("3", DAY0), &[0.01, -0.02]);
    fold(&mut store, &attribution("-1", DAY0 + 60_000), &[0.03]);
    // Next UTC day, one window.
    let day1 = DAY0 + 86_400_000;
    fold(&mut store, &attribution("5", day1), &[]);

    let r0 = store.daily(series(), DayKey::from_ts(DAY0)).expect("day 0");
    assert_eq!(r0.totals.windows_traded, 2);
    assert_eq!(r0.totals.windows_profitable, 1); // +3 profitable, -1 not
    assert_eq!(r0.totals.net_realized, dec("2"));
    assert_eq!(r0.pnl_per_window(), dec("1"));
    let fraction =
        f64::from(r0.totals.windows_profitable) / f64::from(r0.totals.windows_traded);
    assert_eq!(fraction, 0.5);
    assert_eq!(r0.totals.markout_5s_n, 3);

    let r1 = store.daily(series(), DayKey::from_ts(day1)).expect("day 1");
    assert_eq!(r1.totals.windows_traded, 1);
    assert_eq!(r1.totals.markout_5s_n, 0); // no 5s sample that day
    assert_eq!(store.len(), 2);
    assert_eq!(store.daily_rollups().len(), 2);
}

#[test]
fn series_aggregate_sums_across_days_and_builds_row() {
    let mut store = RollupStore::new();
    let day1 = DAY0 + 86_400_000;
    fold(&mut store, &attribution("3", DAY0), &[0.02]);
    fold(&mut store, &attribution("5", day1), &[-0.04]);

    let aggs = store.series_aggregates();
    assert_eq!(aggs.len(), 1);
    let agg = &aggs[0];
    assert_eq!(agg.totals.windows_traded, 2);
    assert_eq!(agg.totals.net_realized, dec("8"));

    let row = agg.to_row(5, &dec("10"), AdverseSelectionState::Healthy);
    assert_eq!(row.windows_traded, 2);
    assert_eq!(row.pnl_per_window, dec("4"));
    assert_eq!(row.windows_profitable, 2);
    assert_eq!(row.rebates_earned, dec("0.2"));
    assert_eq!(row.fees_paid, Amount::zero());
    // The distribution counts both samples.
    assert_eq!(row.markout_5s_n, 2);
    assert_eq!(reading(row.markout_5s_min), -0.04);
    assert_eq!(reading(row.markout_5s_max), 0.02);
    // 2 traded, below a sample of 5: warning.
    assert!(row.min_sample_warning);
    assert_eq!(row.health, AdverseSelectionState::Healthy);
    // Inventory split = excess + remainder = 0 here; locked carries the PnL.
    assert_eq!(row.inventory_pnl, Amount::zero());
    assert_eq!(row.locked_pair_pnl, dec("8"));
}

// ---- time-window selection ---------------------------------------------------

#[test]
fn comparison_window_contains_boundaries() {
    let today = DayKey::from_days(20_619);
    // Today.
    assert!(ComparisonWindow::Today.contains(today, today));
    assert!(!ComparisonWindow::Today.contains(DayKey::from_days(20_618), today));
    // LastDays(7): [today-6 ..= today] inclusive.
    let w = ComparisonWindow::LastDays(7);
    assert!(w.contains(today, today));
    assert!(w.contains(DayKey::from_days(20_613), today)); // today-6 included
    assert!(!w.contains(DayKey::from_days(20_612), today)); // today-7 excluded
    assert!(!w.contains(DayKey::from_days(20_620), today)); // future excluded
    // LastDays(1) == Today; LastDays(0) matches nothing.
    assert!(ComparisonWindow::LastDays(1).contains(today, today));
    assert!(!ComparisonWindow::LastDays(1).contains(DayKey::from_days(20_618), today));
    assert!(!ComparisonWindow::LastDays(0).contains(today, today));
    // All ignores today.
    assert!(ComparisonWindow::All.contains(DayKey::from_days(1), today));
}

#[test]
fn windowed_selection_across_utc_days() {
    let mut store = RollupStore::new();
    let day = |d: i64| DayKey::from_days(d).start_ms();
    // Windows on days 100, 99, 97, 93: net PnL 1, 2, 4, 8.
    fold(&mut store, &attribution("1", day(100)), &[]);
    fold(&mut store, &attribution("2", day(99)), &[]);
    fold(&mut store, &attribution("4", day(97)), &[]);
    fold(&mut store, &attribution("8", day(93)), &[]);
    let today = DayKey::from_days(100);

    let today_only = store.series_aggregates_over(ComparisonWindow::Today, today);
    assert_eq!(today_only.len(), 1);
    assert_eq!(today_only[0].totals.windows_traded, 1);
    assert_eq!(today_only[0].totals.net_realized, dec("1"));

    // LastDays(7): days 100, 99, 97 included; 93 (today-7) excluded: 1+2+4 = 7.
    let week = store.series_aggregates_over(ComparisonWindow::LastDays(7), today);
    assert_eq!(week[0].totals.windows_traded, 3);
    assert_eq!(week[0].totals.net_realized, dec("7"));

    // LastDays(1) == Today.
    let one = store.series_aggregates_over(ComparisonWindow::LastDays(1), today);
    assert_eq!(one[0].totals.net_realized, dec("1"));

    // LastDays(0): nothing.
    assert!(store.series_aggregates_over(ComparisonWindow::LastDays(0), today).is_empty());

    // All = 1+2+4+8 = 15.
    let all = store.series_aggregates_over(ComparisonWindow::All, today);
    assert_eq!(all[0].totals.net_realized, dec("15"));
    assert_eq!(store.series_aggregates()[0].totals.net_realized, dec("15"));
}

// ---- distribution ------------------------------------------------------------

#[test]
fn markout_distribution_bins_and_moments() {
    let mut store = RollupStore::new();
    let samples = [-0.20, -0.04, -0.001, 0.0, 0.001, 0.04, 0.20];
    fold(&mut store, &attribution("1", DAY0), &samples);
    let agg = store.series_aggregates();
    let d = &agg[0];

    assert_eq!(d.totals.markout_5s_n, 7);
    assert!((reading(d.totals.markout_5s_min) - (-0.20)).abs() < 1e-12);
    assert!((reading(d.totals.markout_5s_max) - 0.20).abs() < 1e-12);
    // Bin placement: -0.20 in 0, -0.04 in 2, -0.001 in 8, 0.0 in 8, 0.001 in 9, 0.04 in 14,
    // 0.20 in 16.
    let mut expected = [0u32; MARKOUT_BIN_COUNT];
    expected[0] = 1;
    expected[2] = 1;
    expected[8] = 2;
    expected[9] = 1;
    expected[14] = 1;
    expected[16] = 1;
    assert_eq!(d.markout_5s_hist, expected);
}

#[test]
fn bins_match_their_edges() {
    let edges = [
        -0.10, -0.05, -0.03, -0.02, -0.01, -0.005, -0.002, -0.001, 0.001, 0.002, 0.005, 0.01, 0.02,
        0.03, 0.05, 0.10,
    ];
    for (i, edge) in edges.iter().enumerate() {
        let key = key_of_bits(f64::to_bits(*edge));
        assert_eq!(markout_bin(key), i + 1, "at {edge}");
        assert_eq!(markout_bin(key - 1), i, "below {edge}");
    }
}

#[test]
fn readings_that_are_not_finite_are_not_counted() {
    let mut store = RollupStore::new();
    fold(&mut store, &attribution("1", DAY0), &[f64::NAN, f64::INFINITY, 0.01]);
    assert_eq!(store.series_aggregates()[0].totals.markout_5s_n, 1);
}

#[test]
fn distribution_is_additive_across_days() {
    let samples = [-0.20, -0.04, -0.001, 0.0, 0.001, 0.04];
    // One day with all six.
    let mut a = RollupStore::new();
    fold(&mut a, &attribution("1", DayKey::from_days(100).start_ms()), &samples);
    // Two days, split 3 + 3.
    let mut b = RollupStore::new();
    fold(&mut b, &attribution("1", DayKey::from_days(100).start_ms()), &samples[..3]);
    fold(&mut b, &attribution("1", DayKey::from_days(99).start_ms()), &samples[3..]);

    let da = &a.series_aggregates()[0];
    let db = &b.series_aggregates()[0];
    assert_eq!(da.markout_5s_hist, db.markout_5s_hist);
    assert_eq!(da.totals.markout_5s_n, db.totals.markout_5s_n);
    assert_eq!(da.totals.markout_5s_min, db.totals.markout_5s_min);
    assert_eq!(da.totals.markout_5s_max, db.totals.markout_5s_max);
}

// ---- taker-budget usage & maker mix -------------------------------------------

#[test]
fn taker_budget_usage_and_maker_mix() {
    let mut store = RollupStore::new();
    // Two windows, $20 + $10 taker notional = $30 over 2 windows.
    fold(&mut store, &attribution_notional("1", DAY0, "20"), &[]);
    fold(&mut store, &attribution_notional("1", DAY0 + 60_000, "10"), &[]);
    let agg = store.series_aggregates();

    // Mean per-window notional $15 / $10 budget = 1.5.
    let row = agg[0].to_row(30, &dec("10"), AdverseSelectionState::Healthy);
    assert_eq!(row.taker_notional, dec("30"));
    assert_eq!(row.taker_budget_used, Some(dec("1.5")));
    // maker mix: 4 maker / 1 taker per window: 8 maker / 2 taker = 0.8.
    assert_eq!((row.maker_fills, row.taker_fills), (8, 2));
    assert_eq!(10 * row.maker_fills, 8 * (row.maker_fills + row.taker_fills));

    // Zero budget: none.
    let row0 = agg[0].to_row(30, &Amount::zero(), AdverseSelectionState::Healthy);
    assert_eq!(row0.taker_budget_used, None);

    // No windows traded: none.
    let empty = SeriesAggregate::new(Mode::Paper, series());
    let rowe = empty.to_row(30, &dec("10"), AdverseSelectionState::Healthy);
    assert_eq!(rowe.taker_budget_used, None);
    assert_eq!(rowe.maker_fills + rowe.taker_fills, 0);
}

#[test]
fn min_sample_flag_uses_the_selected_window_count() {
    let mut store = RollupStore::new();
    let today = DayKey::from_days(100);
    // 3 windows today, 40 more on prior days (43 total).
    for i in 0..3 {
        fold(&mut store, &attribution("1", today.start_ms() + i * 1000), &[]);
    }
    for d in 1..=40 {
        fold(&mut store, &attribution("1", DayKey::from_days(100 - d).start_ms()), &[]);
    }

    let today_agg = store.series_aggregates_over(ComparisonWindow::Today, today);
    let today_row = today_agg[0].to_row(30, &dec("10"), AdverseSelectionState::Healthy);
    assert_eq!(today_row.windows_traded, 3);
    assert!(today_row.min_sample_warning); // 3 < 30

    let all_agg = store.series_aggregates();
    let all_row = all_agg[0].to_row(30, &dec("10"), AdverseSelectionState::Healthy);
    assert_eq!(all_row.windows_traded, 43);
    assert!(!all_row.min_sample_warning); // 43 >= 30
}

// ---- sort hints ----------------------------------------------------------------

#[test]
fn sort_column_hints() {
    assert_eq!(SortColumn::default(), SortColumn::NetPnl);
    assert_eq!(SortColumn::all().len(), 13);
    assert!(SortColumn::NetPnl.higher_is_better());
    assert!(SortColumn::AvgMarkout5s.higher_is_better());
    assert!(!SortColumn::FeesPaid.higher_is_better());
    assert!(!SortColumn::TakerBudgetUsed.higher_is_better());
    assert!(!SortColumn::Health.higher_is_better());
    // Every column has a non-empty label.
    for c in SortColumn::all() {
        assert!(!c.label().is_empty());
    }
}

fn row(net: &str, health: AdverseSelectionState) -> SeriesComparisonRow {
    let mut store = RollupStore::new();
    fold(&mut store, &attribution(net, DAY0), &[]);
    store.series_aggregates()[0].to_row(1, &dec("10"), health)
}

#[test]
fn series_comparison_sorts_best_first() {
    let rows = vec![
        row("1", AdverseSelectionState::Healthy),
        row("5", AdverseSelectionState::Healthy),
        row("3", AdverseSelectionState::Healthy),
    ];
    let order = keys(&[1.0, 5.0, 3.0]);
    let table = SeriesComparison::new(
        ComparisonWindow::All,
        DayKey::from_days(0),
        rows,
        &order,
        SortColumn::NetPnl,
    );
    let nets: Vec<Amount> = table.rows.iter().map(|r| r.net_pnl).collect();
    assert_eq!(nets, vec![dec("5"), dec("3"), dec("1")]); // descending
    assert_eq!(table.default_sort, SortColumn::NetPnl);
    assert_eq!(table.rows[0].sort_key(SortColumn::NetPnl), SortFigure::Money(dec("5")));

    // The healthiest rank is 0.
    assert_eq!(table.rows[0].sort_key(SortColumn::Health), SortFigure::Rank(0));

    // A row without a budget share sorts below every value.
    let none_row = SeriesAggregate::new(Mode::Paper, series()).to_row(
        1,
        &Amount::zero(),
        AdverseSelectionState::Healthy,
    );
    assert_eq!(none_row.taker_budget_used, None);
    assert_eq!(none_row.sort_key(SortColumn::TakerBudgetUsed), SortFigure::BudgetShare(None));

    // An alarm is the worst rank.
    let alarm = row("1", AdverseSelectionState::Alarm);
    assert_eq!(alarm.sort_key(SortColumn::Health), SortFigure::Rank(2));
}
