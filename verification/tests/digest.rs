//! The daily digest, and the records it is made from.

use updown_bot::boot::{journal_params, rebuild, JournalConfig, JournalEvent, RebuiltOrders};
use updown_bot::calendar::{calendar_date, utc_date, Date};
use updown_bot::decimal::{Amount, Figure};
use updown_bot::depth::day_file_name;
use updown_bot::digest::{
    build_markdown, checked_driver_rows, digest_path, driver_label, driver_rows, fold_drivers, is_record_file, iso_time,
    parse_driver, parse_line, percentile, render_maker_quality, BreakerRow, DriverAttribLine,
    DriverRow, FillRow, SettlementRow, ShadowStopLine,
};
use updown_bot::driver_matrix::FillDriver;
use updown_bot::floatkey::{bits_of_key, key_of_bits};
use updown_bot::model_taker::{ModelPrediction, ModelTakeOutcome, ModelTakerDecision};
use updown_bot::types::{
    Asset, Fill, Id, Liquidity, OrderState, OrderUpdate, Outcome, Series, Side, WindowDuration,
    WindowId,
};

// 2023-11-14T22:13:20Z.
const DAY_MS: i64 = 1_700_000_000_000;

fn dec(text: &str) -> Amount {
    Amount::parse(text).unwrap()
}

fn series() -> Series {
    Series { asset: Asset::Btc, duration: WindowDuration::M5 }
}

fn window() -> WindowId {
    WindowId { series: series(), open_ms: DAY_MS }
}

fn day() -> Date {
    calendar_date(2023, 11, 14).unwrap()
}

fn percent(row: &DriverRow) -> String {
    format!(
        "{:.1}%",
        100.0 * row.cell.winning_fills as f64 / row.cell.resolved_fills as f64
    )
}

fn attrib(driver: &str, outcome: &str, shares: &str, price: &str, fee: &str) -> DriverAttribLine {
    DriverAttribLine {
        ts: DAY_MS,
        series: "BTC-5m".to_owned(),
        window_open_ms: DAY_MS,
        driver: driver.to_owned(),
        outcome: outcome.to_owned(),
        shares: shares.to_owned(),
        price: price.to_owned(),
        fee: fee.to_owned(),
    }
}

fn settlement() -> SettlementRow {
    SettlementRow {
        window: window(),
        outcome: Outcome::Up,
        realized_pnl: dec("3.75"),
        settle_ms: DAY_MS + 200_000,
    }
}

#[test]
fn digest_folds_index_and_side_channels() {
    let fills = vec![FillRow {
        ts_ms: DAY_MS + 50,
        liquidity: Liquidity::Maker,
        price: dec("0.40"),
        size: dec("30"),
    }];
    let trips = vec![
        BreakerRow {
            ts_ms: DAY_MS + 100,
            kind: "tripped".to_owned(),
            breaker: "FeedStale".to_owned(),
        },
        BreakerRow {
            ts_ms: DAY_MS + 3_600_000,
            kind: "tripped".to_owned(),
            breaker: "FairVsMid".to_owned(),
        },
    ];
    let lines = vec![
        attrib("model", "Up", "10", "0.8", "0.10"),
        attrib("momentum", "Down", "5", "0.3", "0.02"),
    ];
    let stops = vec![ShadowStopLine {
        ts: DAY_MS,
        kind: "DailyStop".to_owned(),
        series: None,
        window_open_ms: None,
        threshold: "200".to_owned(),
        value: "-210".to_owned(),
    }];
    let settlements = vec![settlement()];

    let matrix = fold_drivers(&lines, &settlements, day()).unwrap();
    let rows = driver_rows(&matrix);
    let percents: Vec<String> = rows.iter().map(percent).collect();
    let md = build_markdown(&rows, &percents, &fills, &trips, &stops, &settlements, day());

    assert!(md.contains("model"), "model driver row:\n{md}");
    assert!(md.contains("momentum"), "momentum driver row:\n{md}");
    assert!(md.contains("$1.9"), "model realized +1.90:\n{md}");
    assert!(md.contains("$-1.52"), "momentum realized -1.52:\n{md}");
    assert!(md.contains("100.0%"), "model win%:\n{md}");
    assert!(md.contains("0.0%"), "momentum win%:\n{md}");

    assert!(md.contains("nagi777"), "competitor reference:\n{md}");
    assert!(md.contains("$12"), "maker notional 30 * 0.40 = $12:\n{md}");

    assert!(md.contains("22: 1"), "hour 22 trip:\n{md}");
    assert!(md.contains("23: 1"), "hour 23 trip:\n{md}");
    assert!(md.contains("FeedStale"), "trip by breaker:\n{md}");

    assert!(md.contains("DailyStop"), "shadow loss-stop line:\n{md}");

    assert!(md.contains("$3.75"), "settlement realized pnl:\n{md}");
}

#[test]
fn missing_side_channel_dirs_are_not_an_error() {
    let matrix = fold_drivers(&Vec::new(), &Vec::new(), day()).unwrap();
    let rows = driver_rows(&matrix);
    assert!(rows.is_empty());
    let md = build_markdown(
        &rows,
        &Vec::new(),
        &Vec::new(),
        &Vec::new(),
        &Vec::new(),
        &Vec::new(),
        day(),
    );
    assert!(md.contains("No resolved driver-tagged fills today."));
    assert!(md.contains("- none"), "empty shadow/settlements:\n{md}");
}

#[test]
fn rows_are_ordered_by_series_and_driver() {
    let lines = vec![
        attrib("momentum", "Down", "5", "0.3", "0.02"),
        attrib("model", "Up", "10", "0.8", "0.10"),
    ];
    let rows = driver_rows(&fold_drivers(&lines, &vec![settlement()], day()).unwrap());
    let drivers: Vec<&str> = rows.iter().map(|r| driver_label(r.driver)).collect();
    assert_eq!(drivers, vec!["model", "momentum"]);
    assert_eq!(rows[0].cell.realized_pnl, dec("1.9"));
    assert_eq!(rows[1].cell.realized_pnl, dec("-1.52"));
}

#[test]
fn lines_of_another_day_are_left_out() {
    let mut late = attrib("model", "Up", "10", "0.8", "0.10");
    late.ts = DAY_MS + 86_400_000;
    let rows = driver_rows(&fold_drivers(&vec![late], &vec![settlement()], day()).unwrap());
    assert!(rows.is_empty());
}

#[test]
fn a_line_that_holds_no_fill_is_skipped() {
    assert!(parse_line(&attrib("model", "Up", "10", "0.8", "0.10")).is_some());
    assert!(parse_line(&attrib("nobody", "Up", "10", "0.8", "0.10")).is_none());
    assert!(parse_line(&attrib("model", "Sideways", "10", "0.8", "0.10")).is_none());
    assert!(parse_line(&attrib("model", "Up", "many", "0.8", "0.10")).is_none());
    assert!(parse_line(&attrib("model", "Up", "10", "1.2", "0.10")).is_none());
    assert!(parse_line(&attrib("model", "Up", "-10", "0.8", "0.10")).is_none());
    let mut line = attrib("model", "Up", "10", "0.8", "0.10");
    line.series = "XRP-9m".to_owned();
    assert!(parse_line(&line).is_none());
}

#[test]
fn large_fills_are_booked_up_to_what_a_decimal_holds() {
    let large = attrib("model", "Up", "2000000000000000000", "0.5", "-3000000000000000");
    let rows = driver_rows(&fold_drivers(&vec![large], &vec![settlement()], day()).unwrap());
    assert_eq!(rows[0].cell.realized_pnl, dec("1003000000000000000"));
    let huge = || attrib("model", "Up", "79228162514264337593543950334", "0.5", "0");
    assert!(parse_line(&huge()).is_some());
    let rows = driver_rows(&fold_drivers(&vec![huge()], &vec![settlement()], day()).unwrap());
    assert_eq!(rows[0].cell.realized_pnl, dec("39614081257132168796771975167"));
    let matrix = fold_drivers(&vec![huge(), huge()], &vec![settlement()], day()).unwrap();
    let rows = checked_driver_rows(&matrix).unwrap();
    assert_eq!(rows[0].cell.realized_pnl, dec("79228162514264337593543950334"));
    assert!(fold_drivers(&vec![huge(), huge(), huge()], &vec![settlement()], day()).is_none());
}

#[test]
fn maker_notionals_keep_the_decimal_places_of_the_product() {
    let row = |price: &str, size: &str| FillRow {
        ts_ms: DAY_MS,
        liquidity: Liquidity::Maker,
        price: dec(price),
        size: dec(size),
    };
    let md = render_maker_quality(&vec![row("0.40", "30")], day());
    assert!(md.contains("(n=1): median $12.0 / p90 $12.0\n"), "{md}");
    let md = render_maker_quality(&vec![row("0.25", "2.5"), row("0", "2.5")], day());
    assert!(md.contains("(n=2): median $0 / p90 $0.625\n"), "{md}");
}

#[test]
fn percentiles_take_the_nearest_rank() {
    let sorted: Vec<Figure> = (1..=10).map(|n| Figure::new(n * 10, 1)).collect();
    assert_eq!(percentile(&sorted, 0).text(), "1.0");
    assert_eq!(percentile(&sorted, 50).text(), "5.0");
    assert_eq!(percentile(&sorted, 100).text(), "10.0");
    assert_eq!(percentile(&Vec::new(), 50).text(), "0");
}

#[test]
fn driver_names_are_read_back() {
    for d in [FillDriver::Model, FillDriver::Momentum] {
        assert_eq!(parse_driver(driver_label(d)), Some(d));
    }
    assert_eq!(parse_driver("nobody"), None);
}

#[test]
fn digest_files_and_times() {
    assert_eq!(digest_path(day()), "data/digests/2023-11-14.md");
    assert_eq!(utc_date(DAY_MS), day());
    assert_eq!(iso_time(DAY_MS), "2023-11-14T22:13:20Z");
    assert!(is_record_file("driver-attrib-20231114.jsonl.gz", "driver-attrib-"));
    assert!(!is_record_file("driver-attrib-20231114.jsonl", "driver-attrib-"));
    assert!(!is_record_file("shadow-stops-20231114.jsonl.gz", "driver-attrib-"));
    assert!(!is_record_file("gz", "driver-attrib-"));
}

fn eth_fill(outcome: Outcome, price: &str, shares: &str) -> Fill {
    Fill {
        window: WindowId {
            series: Series { asset: Asset::Eth, duration: WindowDuration::M5 },
            open_ms: 0,
        },
        outcome,
        side: Side::Buy,
        price: dec(price),
        size: dec(shares),
        liquidity: Liquidity::Taker,
        fee: dec("0.10"),
        ts_venue_ms: DAY_MS,
    }
}

#[test]
fn records_two_driver_tagged_fills() {
    let lines = vec![
        DriverAttribLine::build(FillDriver::Model, &eth_fill(Outcome::Up, "0.80", "10")),
        DriverAttribLine::build(FillDriver::Momentum, &eth_fill(Outcome::Down, "0.30", "5")),
    ];
    assert_eq!(
        day_file_name("driver-attrib-", &utc_date(lines[0].ts)),
        "driver-attrib-20231114.jsonl.gz"
    );
    assert_eq!(lines.len(), 2);
    let a = &lines[0];
    assert_eq!(a.driver, "model");
    assert_eq!(a.series, "ETH-5m");
    assert_eq!(a.outcome, "Up");
    assert_eq!(a.price, "0.8");
    let b = &lines[1];
    assert_eq!(b.driver, "momentum");
    assert_eq!(b.outcome, "Down");
    assert_eq!(b.price, "0.3");
    // What is written is read back as the same fill.
    let (w, f) = parse_line(a).unwrap();
    assert_eq!(w, eth_fill(Outcome::Up, "0.80", "10").window);
    assert_eq!((f.driver, f.outcome, f.shares), (FillDriver::Model, Outcome::Up, dec("10")));
    assert_eq!((f.price, f.fee, f.ts_ms), (dec("0.8"), dec("0.1"), DAY_MS));
}

fn pred() -> ModelPrediction {
    ModelPrediction {
        series: Series { asset: Asset::Eth, duration: WindowDuration::M5 },
        window_open_ms: 0,
        ts_ms: DAY_MS,
        p_up: key_of_bits(0.95f64.to_bits()),
        finite_count: 24,
        model_stale: false,
    }
}

#[test]
fn records_a_fire_and_a_suppression() {
    let fired = ModelTakerDecision::build(
        &pred(),
        &ModelTakeOutcome::Fired {
            outcome: Outcome::Up,
            shares: dec("12.5"),
            notional: dec("10"),
            worst_price: dec("0.80"),
        },
    );
    let supp = ModelTakerDecision::build(
        &pred(),
        &ModelTakeOutcome::Suppressed("NoWindowState".to_owned()),
    );
    assert_eq!(
        day_file_name("model-taker-", &utc_date(fired.ts)),
        "model-taker-20231114.jsonl.gz"
    );
    assert!(fired.fired);
    assert_eq!(fired.series, "ETH-5m");
    assert_eq!(fired.outcome.as_deref(), Some("Up"));
    assert_eq!(fired.notional.as_deref(), Some("10"));
    assert_eq!(fired.shares.as_deref(), Some("12.5"));
    assert_eq!(fired.worst_price.as_deref(), Some("0.8"));
    assert_eq!(fired.reason, "fired");
    assert_eq!(f64::from_bits(bits_of_key(fired.p_up)), 0.95);
    assert!(!supp.fired);
    assert_eq!(supp.outcome, None);
    assert_eq!(supp.reason, "NoWindowState");
}

fn order(id: &str, state: OrderState) -> JournalEvent {
    JournalEvent::Order(
        OrderUpdate {
            order_id: Id::new(id),
            window: window(),
            side: Side::Buy,
            state,
            price: dec("0.40"),
            filled_size: if state == OrderState::Filled { dec("10") } else { dec("0") },
            reject_reason: None,
        },
    )
}

fn session() -> Vec<JournalEvent> {
    vec![
        JournalEvent::Other,
        order("o1", OrderState::Open),
        order("o1", OrderState::Filled),
        order("o2", OrderState::Open),
        JournalEvent::Other,
        JournalEvent::Other,
        JournalEvent::Other,
    ]
}

#[test]
fn rebuild_matches_the_live_fold_and_keeps_only_working_orders() {
    let events = session();
    let state = rebuild(&events);

    let mut live = RebuiltOrders::new();
    for e in &events {
        if let JournalEvent::Order(u) = e {
            live.fold(u);
        }
    }
    assert_eq!(state.orders.working(), live.working());
    assert_eq!(state.events, events.len() as u64);

    assert_eq!(state.orders.working(), 1);
    assert!(state.orders.contains(&Id::new("o2")));
    assert!(!state.orders.contains(&Id::new("o1")));
}

#[test]
fn missing_journal_dir_is_a_clean_first_run() {
    let state = rebuild(&Vec::new());
    assert_eq!(state.events, 0);
    assert_eq!(state.orders.working(), 0);
}

#[test]
fn journal_params_maps_the_config_section() {
    let config = JournalConfig {
        dir: "data/jjj".to_owned(),
        max_segment_bytes: 64_000_000,
        max_segment_age_ms: 3_600_000,
        channel_capacity: 1_024,
        flush_interval_ms: 500,
        sqlite_path: "data/jjj.sqlite".to_owned(),
        fsync_on_flush: true,
        retention_max_age_ms: 86_400_000,
        retention_max_total_bytes: 0,
    };
    let params = journal_params(&config);
    assert_eq!(params.out_dir, "data/jjj");
    assert_eq!(params.sqlite_path, Some("data/jjj.sqlite".to_owned()));
    assert!(params.fsync_on_flush);
    assert_eq!(params.retention_max_age_ms, 86_400_000);
    assert_eq!(params.max_segment_bytes, config.max_segment_bytes);
}
