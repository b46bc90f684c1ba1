//! Replays of a tape, and sweeps over a grid.

use updown_bot::datekey::DayKey;
use updown_bot::decimal::Amount;
use updown_bot::engine::{Analytics, AnalyticsEvent};
use updown_bot::floatkey::key_of_bits;
use updown_bot::health::AdverseSelectionState;
use updown_bot::params::AnalyticsParams;
use updown_bot::replay::{
    aggregate, check_replay, checked_aggregate, checked_sweep, collect, is_replay_input, or_base,
    ranking, replay_output, report_sinks, run_sweep, sinks, worker_count, worker_points, DriveAction, RecordKind, ReplayConfig, ReplayDriver, ReplayError,
    ReplayOutput, ReplaySummary, Seen, SweepGrid, SweepReport, TapeRecord, VenueReport,
};
use updown_bot::rollup::{
    ComparisonWindow, SeriesAggregate, SeriesComparison, SeriesComparisonRow, SortColumn,
    SortFigure,
};
use updown_bot::table::Table;
use updown_bot::types::{
    Asset, Fill, Liquidity, Mode, Outcome, Series, Side, WindowDuration, WindowId,
};

const BASE: i64 = 1_781_000_000_000;

fn dec(text: &str) -> Amount {
    Amount::parse(text).unwrap()
}

fn key(x: f64) -> i64 {
    key_of_bits(x.to_bits())
}

fn base_config() -> ReplayConfig {
    ReplayConfig {
        min_edge: dec("0.01"),
        gamma: key(0.05),
        reprice_theta: key(0.005),
        cancel_market_theta: key(0.01),
        momentum_buffer: dec("0.02"),
        rng_seed: Some(1),
        placement_ms: 150,
        cancel_ms: 100,
        analytics: AnalyticsParams::default(),
        mode: Mode::Paper,
        risk_tick_ms: 100,
        comparison_window: ComparisonWindow::All,
    }
}

fn synthetic_tape() -> Vec<TapeRecord> {
    vec![
        TapeRecord { ts_ms: BASE, kind: RecordKind::Window },
        TapeRecord { ts_ms: BASE + 10, kind: RecordKind::Other },
        TapeRecord { ts_ms: BASE + 250, kind: RecordKind::Fill },
        TapeRecord { ts_ms: BASE + 260, kind: RecordKind::Model },
    ]
}

#[test]
fn empty_and_unseeded_are_rejected() {
    let cfg = base_config();
    assert!(matches!(check_replay(0, &cfg), Err(ReplayError::EmptyTape)));
    let mut unseeded = base_config();
    unseeded.rng_seed = None;
    assert!(matches!(
        check_replay(synthetic_tape().len(), &unseeded),
        Err(ReplayError::UnseededPaper)
    ));
    assert!(check_replay(synthetic_tape().len(), &cfg).is_ok());
}

#[test]
fn errors_say_what_is_wrong() {
    assert_eq!(ReplayError::EmptyTape.text(), "empty tape");
    assert_eq!(
        ReplayError::UnseededPaper.text(),
        "paper rng_seed must be Some for a deterministic replay"
    );
    assert_eq!(
        ReplayError::Runtime("no threads".to_owned()).text(),
        "building the replay runtime: no threads"
    );
    assert_eq!(ReplayError::Worker.text(), "a sweep worker thread failed");
}

/// Runs a tape and lists what the driver asked for.
fn course(tape: &Vec<TapeRecord>, config: &ReplayConfig, seen: Seen) -> Vec<DriveAction> {
    let mut driver = ReplayDriver::new(tape[0].ts_ms, config);
    let mut actions = Vec::new();
    loop {
        let action = driver.next(tape, seen);
        actions.push(action);
        if action == DriveAction::Done {
            return actions;
        }
    }
}

#[test]
fn ticks_come_between_the_records() {
    let tape = synthetic_tape();
    let none = Seen::none();
    let actions = course(&tape, &base_config(), none);
    let ticks = actions.iter().filter(|a| **a == DriveAction::Tick).count();
    // 100 and 200 ms after the opening; the next would be after the last record.
    assert_eq!(ticks, 2);
    let fed: Vec<usize> = actions
        .iter()
        .filter_map(|a| match a {
            DriveAction::Feed(i) => Some(*i),
            _ => None,
        })
        .collect();
    assert_eq!(fed, vec![0, 1, 3]);
    let skipped: Vec<usize> = actions
        .iter()
        .filter_map(|a| match a {
            DriveAction::Skip(i) => Some(*i),
            _ => None,
        })
        .collect();
    assert_eq!(skipped, vec![2], "an output of the engine is no input");
    let time: u64 = actions
        .iter()
        .map(|a| match a {
            DriveAction::Advance(ms) => *ms,
            _ => 0,
        })
        .sum();
    // The tape's 260 ms, and one round of 151 ms in which nothing came out.
    assert_eq!(time, 260 + 151);
    // The same tape takes the same course.
    assert_eq!(actions, course(&tape, &base_config(), none));
}

#[test]
fn only_inputs_are_fed() {
    assert!(is_replay_input(RecordKind::Window));
    assert!(is_replay_input(RecordKind::Other));
    assert!(is_replay_input(RecordKind::Model));
    assert!(!is_replay_input(RecordKind::Fill));
    let window = sinks(RecordKind::Window);
    assert!(window.analytics && window.inventory);
    let model = sinks(RecordKind::Model);
    assert!(model.analytics && !model.inventory);
    assert!(!sinks(RecordKind::Other).analytics);
}

fn series() -> Series {
    Series { asset: Asset::Btc, duration: WindowDuration::M5 }
}

fn row(net: &str) -> SeriesComparisonRow {
    let mut r = SeriesAggregate::new(Mode::Paper, series()).to_row(
        1,
        &dec("10"),
        AdverseSelectionState::Healthy,
    );
    r.net_pnl = dec(net);
    r.windows_traded = 2;
    r
}

fn output(net: &str) -> ReplayOutput {
    let rows = vec![row(net)];
    let keys = vec![0];
    ReplayOutput {
        comparison: SeriesComparison::new(
            ComparisonWindow::All,
            DayKey::from_days(0),
            rows,
            &keys,
            SortColumn::NetPnl,
        ),
        summary: ReplaySummary::new(4, BASE, BASE + 260),
    }
}

#[test]
fn sweep_completes_ranks_and_is_deterministic() {
    let base = base_config();
    let grid = SweepGrid {
        min_edge: vec![dec("0.01"), dec("0.02")],
        gamma: vec![key(0.05), key(0.10)],
        cancel_theta: vec![], // the base value
        taker_buffer: vec![], // the base value
    };
    let points = grid.points(&base);
    assert_eq!(points.len(), 4, "a grid of two by two has four points");
    assert_eq!(points[1].gamma, key(0.10));
    assert_eq!(points[2].min_edge, dec("0.02"));
    assert!(points.iter().all(|p| p.cancel_theta == base.reprice_theta));

    let nets = ["1", "4", "2", "3"];
    let keys: Vec<i64> = nets.iter().map(|n| key(n.parse().unwrap())).collect();
    // What each worker gives, in any order.
    let report = |order: [usize; 4]| {
        let given = order.iter().map(|i| (*i, Ok(output(nets[*i])))).collect();
        run_sweep(4, &base, &grid, SortColumn::NetPnl, given, &keys).unwrap()
    };
    let r1 = report([0, 1, 2, 3]);
    assert_eq!(r1.points_total, 4);
    assert_eq!(r1.rows.len(), 4);
    assert_eq!(r1.rank_metric, SortColumn::NetPnl);
    // Ranked best first: a higher net is better.
    let ranked: Vec<Amount> = r1.rows.iter().map(|r| r.aggregate.net_pnl).collect();
    assert_eq!(ranked, vec![dec("4"), dec("3"), dec("2"), dec("1")]);
    assert_eq!(r1.rows[0].point, points[1]);
    // The order in which workers finish changes nothing.
    assert_eq!(format!("{r1:?}"), format!("{:?}", report([3, 1, 0, 2])));
}

#[test]
fn a_failed_point_fails_the_sweep() {
    let results = vec![
        (0, Ok(output("1"))),
        (1, Err(ReplayError::Runtime("x".to_owned()))),
    ];
    assert!(matches!(collect(results, 2), Err(ReplayError::Runtime(_))));
    let short = vec![(0, Ok(output("1")))];
    assert!(matches!(collect(short, 2), Err(ReplayError::Worker)));
}

#[test]
fn lower_is_better_turns_the_ranking_round() {
    let keys = vec![3, 1, 2, 1];
    assert_eq!(ranking(&keys, true), vec![0, 2, 1, 3]);
    assert_eq!(ranking(&keys, false), vec![1, 3, 2, 0]);
}

#[test]
fn rows_add_up() {
    let rows = vec![row("1.5"), row("-4")];
    let a = aggregate(&rows, &dec("10"));
    assert_eq!(a.net_pnl, dec("-2.5"));
    assert_eq!(a.windows_traded, 4);
    assert_eq!(a.pnl_per_window, dec("-0.625"));
    assert_eq!(a.taker_budget_used, Some(Amount::zero()));
    assert_eq!(a.rank_figure(SortColumn::NetPnl), SortFigure::Money(dec("-2.5")));
    let seen = Seen { fills: 3, order_updates: 7, windows_settled: 1 };
    let summary = ReplaySummary::new(4, BASE, BASE + 260).finished(2, seen, &rows);
    assert_eq!(summary.net_pnl, dec("-2.5"));
    assert_eq!(summary.fills, 3);
    assert_eq!(summary.events_dropped, 2);
}

#[test]
fn a_point_takes_the_place_of_the_base_values() {
    let base = base_config();
    let point = SweepGrid {
        min_edge: vec![dec("0.03")],
        gamma: vec![],
        cancel_theta: vec![key(0.02)],
        taker_buffer: vec![],
    }
    .points(&base)[0];
    let applied = point.applied(&base, key(0.04));
    assert_eq!(applied.min_edge, dec("0.03"));
    assert_eq!(applied.gamma, base.gamma);
    assert_eq!(applied.reprice_theta, key(0.02));
    assert_eq!(applied.cancel_market_theta, key(0.04));
    // It never drops below the threshold for repricing.
    assert_eq!(point.applied(&base, key(0.01)).cancel_market_theta, key(0.02));
    assert_eq!(or_base(&vec![], 7), vec![7]);
    assert_eq!(or_base(&vec![1, 2], 7), vec![1, 2]);
}

#[test]
fn workers_share_the_points_out() {
    assert_eq!(worker_count(1), 1);
    assert_eq!(worker_count(3), 1);
    assert_eq!(worker_count(8), 6);
    assert_eq!(worker_points(7, 3, 0), vec![0, 3, 6]);
    assert_eq!(worker_points(7, 3, 1), vec![1, 4]);
    assert_eq!(worker_points(7, 3, 2), vec![2, 5]);
}

#[test]
fn what_the_venue_gives_out_is_counted() {
    let mut seen = Seen::none();
    seen.on_report(VenueReport::Order);
    seen.on_report(VenueReport::Order);
    seen.on_report(VenueReport::Fill);
    seen.on_report(VenueReport::Connectivity);
    seen.on_settled();
    assert_eq!(seen, Seen { fills: 1, order_updates: 2, windows_settled: 1 });
    let fill = report_sinks(VenueReport::Fill);
    assert!(fill.analytics && fill.inventory);
    assert!(!report_sinks(VenueReport::Order).analytics);
    assert!(!report_sinks(VenueReport::Connectivity).inventory);
}

#[test]
fn a_sweep_of_nothing_is_refused() {
    let grid = SweepGrid {
        min_edge: vec![],
        gamma: vec![],
        cancel_theta: vec![],
        taker_buffer: vec![],
    };
    let sweep = |records, base: &ReplayConfig, given| {
        run_sweep(records, base, &grid, SortColumn::NetPnl, given, &vec![0])
    };
    let seeded = base_config();
    let unseeded = ReplayConfig { rng_seed: None, ..seeded };
    let given = || vec![(0, Ok(output("1")))];
    assert!(matches!(sweep(0, &unseeded, given()), Err(ReplayError::EmptyTape)));
    assert!(matches!(sweep(4, &unseeded, given()), Err(ReplayError::UnseededPaper)));
    assert!(matches!(sweep(4, &seeded, vec![]), Err(ReplayError::Worker)));
    assert_eq!(sweep(4, &seeded, given()).unwrap().rows.len(), 1);
    // The report of the outputs alone is the same.
    let outputs = collect(given(), 1).unwrap();
    let alone = SweepReport::new(
        SortColumn::NetPnl,
        &grid.points(&seeded),
        outputs,
        &vec![0],
        &seeded.analytics.taker_budget_per_window,
    );
    assert_eq!(format!("{alone:?}"), format!("{:?}", sweep(4, &seeded, given()).unwrap()));
}

#[test]
fn many_large_rows_add_up_as_far_as_a_decimal_goes() {
    let rows: Vec<SeriesComparisonRow> = (0..200).map(|_| row("300000000000000000000000000")).collect();
    let a = aggregate(&rows, &dec("10"));
    assert_eq!(a.net_pnl, dec("60000000000000000000000000000"));
    assert_eq!(a.pnl_per_window, dec("150000000000000000000000000"));
    let beyond: Vec<SeriesComparisonRow> =
        (0..300).map(|_| row("300000000000000000000000000")).collect();
    assert!(checked_aggregate(&beyond, &dec("10")).is_none());
    let first = ReplaySummary::new(4, BASE, BASE + 260);
    assert!(first.checked_finished(0, Seen::none(), &rows).is_some());
    assert!(first.checked_finished(0, Seen::none(), &beyond).is_none());

    // A sweep has no report where the rows of a point do not add up, and is refused as ever.
    let base = base_config();
    let grid =
        SweepGrid { min_edge: vec![], gamma: vec![], cancel_theta: vec![], taker_buffer: vec![] };
    let sweep = |records: usize, rows: Vec<SeriesComparisonRow>| {
        let mut o = output("1");
        o.comparison.rows = rows;
        checked_sweep(records, &base, &grid, SortColumn::NetPnl, vec![(0, Ok(o))], &vec![0])
    };
    assert!(sweep(4, rows).unwrap().is_ok());
    assert!(sweep(4, beyond.clone()).is_none());
    assert!(matches!(sweep(0, beyond), Some(Err(ReplayError::EmptyTape))));
}

/// A whole replay against a venue that fills on every record that it is fed.
fn whole_replay() -> (Vec<DriveAction>, String) {
    let tape = synthetic_tape();
    let config = base_config();
    let mut driver = ReplayDriver::new(tape[0].ts_ms, &config);
    let mut analytics = Analytics::new(config.mode, config.analytics);
    let mut seen = Seen::none();
    let mut actions = Vec::new();
    loop {
        let action = driver.next(&tape, seen);
        actions.push(action);
        match action {
            DriveAction::Feed(_) => {
                seen.on_report(VenueReport::Fill);
                let fill = Fill {
                    window: WindowId { series: series(), open_ms: BASE },
                    outcome: Outcome::Up,
                    side: Side::Buy,
                    price: dec("0.4"),
                    size: dec("10"),
                    liquidity: Liquidity::Taker,
                    fee: Amount::zero(),
                    ts_venue_ms: BASE,
                };
                assert!(analytics.take(&AnalyticsEvent::Fill(fill)).is_some());
            }
            DriveAction::Done => break,
            _ => {}
        }
    }
    let first = ReplaySummary::new(tape.len() as u64, tape[0].ts_ms, tape[3].ts_ms);
    let keys: Table<Series, i64> = Table::new();
    let output = replay_output(&driver, seen, &analytics, &config, &first, &keys).unwrap();
    assert_eq!(output.summary.fills, 3);
    assert_eq!(output.summary.events_dropped, 1);
    assert_eq!(output.comparison.day, DayKey::from_ts(BASE));
    (actions, format!("{output:?}"))
}

#[test]
fn two_whole_replays_are_alike() {
    assert_eq!(whole_replay(), whole_replay());
}
