//! The full-screen views, sessions, and what a run goes by before it starts.

use updown_bot::cli::Command;
use updown_bot::decimal::{Amount, Figure};
use updown_bot::ladder::{
    BookHealth, BookSnapshot, BookUnreliableReason, ConnectionStatus, ForcedRecycle, Ladder, Trade,
};
use updown_bot::live::{venue_check_text, BuiltOrder, LiveParams};
use updown_bot::paper_sim::{
    paper_params, CapitalDemo, LatencySpec, PaperBooks, PaperConfig, PaperState,
};
use updown_bot::quoting::{
    merge_pairs, quote_round, representative_orders, OrderQty, TimeInForce,
};
use updown_bot::screen::EventPane;
use updown_bot::session::{DriverEnd, Session};
use updown_bot::startup::{
    default_btc_5m_series, parse_date, presence_text, resolve_config_dir, startup,
};
use updown_bot::types::{
    Fill, Id, Level, Liquidity, MarketInfo, OrderState, OrderUpdate, Outcome, ResolutionKind,
    Series, Side, TopOfBook, WindowId, WindowLifecycle,
};

fn amount(text: &str) -> Amount {
    Amount::parse(text).unwrap()
}

fn figure(text: &str) -> Figure {
    Figure::parse(text).unwrap()
}

fn level(price: &str, size: &str) -> Level {
    Level { price: amount(price), size: amount(size) }
}

fn btc5() -> Series {
    Series::parse("BTC-5m").unwrap()
}

fn market(open_ms: i64) -> MarketInfo {
    MarketInfo {
        window: WindowId { series: btc5(), open_ms },
        event_slug: format!("slug-{open_ms}"),
        condition_id: Id::new("0x11"),
        up_token: Id::new(&format!("up-token-{open_ms}")),
        down_token: Id::new(&format!("down-token-{open_ms}")),
        close_ms: open_ms + 300_000,
        tick_size: amount("0.01"),
        fee_rate: figure("0.07"),
        rebate_rate: figure("0.2"),
        fees_enabled: true,
        taker_only: true,
        min_order_size: amount("5"),
        neg_risk: false,
        resolution_kind: ResolutionKind::BinanceCandle,
        resolution_raw: "candle".to_owned(),
    }
}

fn up(open_ms: i64) -> Id {
    Id::new(&format!("up-token-{open_ms}"))
}

#[test]
fn a_ladder_waits_for_its_window() {
    let l = Ladder::new(btc5(), 0);
    let frame = l.draw(&Vec::new(), 0);
    assert_eq!(
        frame,
        "\u{1b}[H\u{1b}[Jladder [BTC-5m] waiting for the current window (discovery + scheduler warming up)\u{2026}\n"
    );
}

#[test]
fn a_ladder_shows_the_best_levels() {
    let mut l = Ladder::new(btc5(), 1);
    l.on_window(&market(0), WindowLifecycle::Open, 0);
    l.on_book(
        &up(0),
        BookSnapshot {
            bids: vec![level("0.40", "10"), level("0.39", "20")],
            asks: vec![level("0.45", "30"), level("0.46", "40")],
        },
    );
    l.on_trade(&up(0), Trade { price: amount("0.42"), size: amount("7") });
    l.on_tick_size(&Id::new("0x11"), amount("0.001"), 1_000);
    l.on_tick_size(&Id::new("0x22"), amount("0.5"), 1_000);
    l.on_health(
        BookHealth::Unreliable {
            window: market(0).window,
            reason: BookUnreliableReason::Crossed,
        },
        2_000,
    );
    let statuses = vec![ConnectionStatus {
        window: market(300_000).window,
        trusted: true,
        connected: false,
        episodes: 1,
        recycles: 2,
        drift: 3,
        anomalies: 4,
    }];
    let frame = l.draw(&statuses, 60_000);
    let expected = format!(
        "\u{1b}[H\u{1b}[JBTC-5m BTC-5m@0  polymarket.com/event/slug-0\n\
         phase {:<10} closes in {:>8}  tick 0.001  books UNRELIABLE\n\
         conn {:<26} DOWN  episodes 1  recycles 2  drift 3  anomalies 4\n\n\
         [Up]  token \u{2026}-token-0\n  {:>8}  {:>12}\n  \u{2500}\u{2500} mid 0.4250 spread 0.05 last 0.42\u{d7}7 \u{2500}\u{2500}\n  {:>8}  {:>12}\n\n\
         [Down]  token \u{2026}-token-0\n  (no book yet)\n\n\
         recent events:\n\
         \x20 1970-01-01T00:00:00Z OPEN slug-0\n\
         \x20 1970-01-01T00:00:01Z TICK SIZE -> 0.001\n\
         \x20 1970-01-01T00:00:02Z BOOKS UNRELIABLE BTC-5m@0: crossed book\n",
        "Open", "04:00", "BTC-5m@300000", "0.45", "30", "0.4", "10",
    );
    assert_eq!(frame, expected);
    assert_eq!(
        l.summary(60_000),
        "\nrun summary: 1 books, 1 trades, 1 health transitions, 0 resolutions over 01:00"
    );
}

#[test]
fn a_connection_speaks_before_what_was_told() {
    let mut l = Ladder::new(btc5(), 8);
    l.on_window(&market(0), WindowLifecycle::Open, 0);
    l.on_health(
        BookHealth::Recovered { window: market(0).window, outage_ms: 90_000 },
        0,
    );
    assert!(l.draw(&Vec::new(), 0).contains("books TRUSTED"));
    let statuses = vec![ConnectionStatus {
        window: market(0).window,
        trusted: false,
        connected: true,
        episodes: 1,
        recycles: 0,
        drift: 0,
        anomalies: 0,
    }];
    let frame = l.draw(&statuses, 0);
    assert!(frame.contains("books UNRELIABLE"), "{frame}");
    assert!(frame.contains("BOOKS RECOVERED BTC-5m@0 (outage 01:30)"), "{frame}");
}

#[test]
fn a_new_window_drops_the_old_books() {
    let mut l = Ladder::new(btc5(), 8);
    l.on_window(&market(0), WindowLifecycle::Open, 0);
    l.on_book(
        &up(0),
        BookSnapshot { bids: vec![level("0.40", "10")], asks: Vec::new() },
    );
    l.on_window(&market(300_000), WindowLifecycle::Discovered, 1);
    l.on_window(&market(300_000), WindowLifecycle::Open, 300_000);
    l.on_window(&market(0), WindowLifecycle::Open, 300_001);
    let frame = l.draw(&Vec::new(), 300_001);
    assert!(!frame.contains("0.4  "), "{frame}");
    assert!(frame.contains("(no book yet)"), "{frame}");
}

#[test]
fn a_recycle_is_forced_once() {
    let mut l = Ladder::new(btc5(), 8);
    let mut forced = ForcedRecycle::new(1_000, Some(5));
    assert_eq!(forced.on_render(&mut l, 6_000), None);
    l.on_window(&market(0), WindowLifecycle::Open, 0);
    assert_eq!(forced.on_render(&mut l, 5_999), None);
    assert_eq!(forced.on_render(&mut l, 6_000), Some(market(0).window));
    assert_eq!(forced.on_render(&mut l, 7_000), None);
    assert!(l.draw(&Vec::new(), 7_000).contains("FORCED RECYCLE sent (--recycle-after)"));
    assert_eq!(ForcedRecycle::new(1, None).pending_ms, None);
    assert_eq!(ForcedRecycle::new(1, Some(u64::MAX)).pending_ms, Some(i64::MAX));
}

#[test]
fn the_capital_is_raised_once() {
    let mut demo = CapitalDemo::new();
    assert_eq!(demo.on_render(29_999), None);
    assert_eq!(demo.on_render(30_000), Some(amount("1000")));
    assert_eq!(demo.on_render(60_000), None);
}

#[test]
fn a_paper_round_merges_before_it_quotes() {
    let mut s = PaperState::new(btc5(), amount("10000"));
    let none = s.round(&vec![(up(0), figure("3"))]);
    assert!(none.merge.is_none() && none.orders.is_none());
    s.on_window(&market(0), WindowLifecycle::Open, 0);
    let held =
        vec![(up(0), figure("3")), (Id::new("down-token-0"), figure("2"))];
    // A window without a book: nothing is done, whatever is held.
    let bookless = s.round(&held);
    assert!(bookless.merge.is_none() && bookless.orders.is_none());
    s.on_top(&up(0), TopOfBook { bid: Some(level("0.40", "10")), ask: None });
    let one_sided = s.round(&held);
    assert_eq!(one_sided.merge, Some(amount("2")));
    assert!(one_sided.orders.is_none());
    let top = TopOfBook { bid: Some(level("0.40", "10")), ask: Some(level("0.45", "10")) };
    s.on_top(&up(0), top);
    assert_eq!(s.round(&Vec::new()).orders.map(|o| o.len()), Some(2));
}

#[test]
fn a_pane_keeps_its_newest_lines() {
    let mut pane = EventPane::new(2);
    assert_eq!(pane.text(), "recent events:\n  (none yet)\n");
    for i in 0..3 {
        pane.push(i * 1_000, &format!("line {i}"));
    }
    assert_eq!(
        pane.text(),
        "recent events:\n  1970-01-01T00:00:01Z line 1\n  1970-01-01T00:00:02Z line 2\n"
    );
}

fn update(id: &str, state: OrderState) -> OrderUpdate {
    OrderUpdate {
        order_id: Id::new(id),
        window: market(0).window,
        side: Side::Buy,
        state,
        price: amount("0.40"),
        filled_size: amount("0"),
        reject_reason: Some("too small".to_owned()),
    }
}

#[test]
fn a_paper_session_on_screen() {
    let mut s = PaperState::new(btc5(), amount("10000"));
    s.on_window(&market(0), WindowLifecycle::Open, 0);
    let top = TopOfBook { bid: Some(level("0.40", "10")), ask: Some(level("0.45", "10")) };
    s.on_top(&up(0), top);
    s.on_top(&Id::new("elsewhere"), TopOfBook { bid: None, ask: None });
    assert_eq!(s.up_top(), Some(top));
    assert_eq!(s.down_top(), None);
    s.on_order(&update("order-b", OrderState::Open), 0);
    s.on_order(&update("order-a", OrderState::Open), 0);
    s.on_order(&update("order-c", OrderState::Open), 0);
    s.on_order(&update("order-c", OrderState::Rejected), 0);
    s.on_fill(
        &Fill {
            window: market(0).window,
            outcome: Outcome::Up,
            side: Side::Buy,
            price: amount("0.40"),
            size: amount("10"),
            liquidity: Liquidity::Maker,
            fee: amount("0.05"),
            ts_venue_ms: 0,
        },
        0,
    );
    s.add_quotes(3);
    s.on_merged(amount("2"), 0);
    s.on_settled(&market(0), Outcome::Up, amount("10010"), 0);
    s.on_capital(amount("100"), amount("10110"), 0);
    let books = PaperBooks {
        collateral: amount("10110"),
        fees_paid: amount("0.05"),
        rebate_accrued: amount("0.01"),
        rebate_credited: amount("0"),
        positions: vec![(up(0), figure("8.0"))],
    };
    let frame = s.draw(2, &books, 0);
    for line in [
        "paper-sim [BTC-5m]  (real data, paper money)\n",
        "feed: 2 connection(s) up   ",
        "our quotes:\n  order-a        Buy @ 0.4 filled 0\n  order-b        Buy @ 0.4 filled 0\n\n",
        "wallet: collateral 10110  (start 10000, \u{394} 110)  positions 1\n  up-token-0 : 8.0\n",
        "stats: quotes placed 3  fills 1 (1 maker / 0 taker)  merges 1\n",
        "income: fees 0.05  rebate accrued 0.01  credited 0\n",
        "REJECT order-c Buy too small\n",
        "FILL Buy 10 @ 0.4 (Maker, fee 0.05)\n",
        "MERGE 2 pairs -> collateral\n",
        "SETTLED slug-0 -> Up  collateral 10010\n",
        "CAPITAL +100 -> collateral 10110\n",
    ] {
        assert!(frame.contains(line), "{line:?} in\n{frame}");
    }
    assert_eq!(
        s.summary(&books),
        "\npaper-sim summary: 1 fills (1 maker / 0 taker), fees 0.05, rebate credited 0, 1 merges, final collateral 10110"
    );
}

#[test]
fn a_paper_venue_starts_from_the_clock() {
    let config = PaperConfig {
        starting_capital: amount("10000"),
        placement_latency: LatencySpec { mean_ms: 80, jitter_ms: 20 },
        cancel_latency: LatencySpec { mean_ms: 60, jitter_ms: 10 },
        venue_taker_delay_ms: 500,
        default_fee_rate: amount("0.07"),
        maker_rebate_share: amount("0.2"),
        taker_rebate_enabled: true,
    };
    assert_eq!(paper_params(config, 8).rng_seed, 9);
    assert_eq!(paper_params(config, 9).rng_seed, 9);
    assert_eq!(paper_params(config, -4).rng_seed, 1);
    assert_eq!(paper_params(config, 8).config, config);
}

#[test]
fn a_round_joins_the_touch() {
    let top = TopOfBook { bid: Some(level("0.40", "10")), ask: Some(level("0.45", "10")) };
    let half = TopOfBook { bid: Some(level("0.50", "10")), ask: None };
    let m = Some(market(0));
    let orders = quote_round(&m, Some(top), Some(half)).unwrap();
    let placed: Vec<(Side, Outcome, Amount)> =
        orders.iter().map(|o| (o.side, o.outcome, o.price)).collect();
    assert_eq!(
        placed,
        vec![
            (Side::Buy, Outcome::Up, amount("0.40")),
            (Side::Sell, Outcome::Up, amount("0.45")),
            (Side::Buy, Outcome::Down, amount("0.50")),
        ]
    );
    assert!(matches!(orders[0].tif, TimeInForce::Gtc { post_only: true }));
    assert!(quote_round(&m, Some(half), Some(top)).is_none());
    assert!(quote_round(&None, Some(top), Some(top)).is_none());
}

#[test]
fn pairs_are_merged_up_to_the_smaller_side() {
    let m = market(0);
    let held = |u: &str, d: &str| {
        vec![(m.up_token.duplicate(), figure(u)), (m.down_token.duplicate(), figure(d))]
    };
    assert_eq!(merge_pairs(&held("5", "3"), &m), Some(amount("3")));
    assert_eq!(merge_pairs(&held("5", "0"), &m), None);
    assert_eq!(merge_pairs(&Vec::new(), &m), None);
}

#[test]
fn the_dry_run_covers_each_class() {
    let orders = representative_orders(1_000);
    assert_eq!(orders.len(), 4);
    assert!(matches!(
        orders[1].1.tif,
        TimeInForce::Gtd { expires_at_ms: 11_000, post_only: true }
    ));
    assert_eq!(orders[2].1.qty, OrderQty::Notional(amount("25")));
    let p = LiveParams {
        clob_host: "https://clob.example".to_owned(),
        chain_id: 137,
        sig_type: "Proxy".to_owned(),
        funder: None,
    };
    let built = BuiltOrder {
        token_id: "123456789".to_owned(),
        side: "Buy".to_owned(),
        price: "0.4".to_owned(),
        amount: "Shares(10)".to_owned(),
        class: "Gtc".to_owned(),
        sig_type: "Proxy".to_owned(),
        funder: None,
    };
    let shown = vec![
        (orders[0].0.to_owned(), Ok(built)),
        (orders[3].0.to_owned(), Err("no tick".to_owned())),
    ];
    let text = venue_check_text(&p, &Some("funder is not set".to_owned()), &shown);
    assert!(text.contains("  funder      = <unset \u{2014} required before arming live>\n"), "{text}");
    assert!(
        text.contains("  validate()  = funder is not set (expected until [live].funder is set)\n"),
        "{text}"
    );
    assert!(text.contains("  GTC post-only BUY:\n    token_id  = 123456789\n"), "{text}");
    assert!(text.contains("    funder    = <none>\n"), "{text}");
    assert!(text.contains("  FOK marketable SELL (share count): BUILD ERROR: no tick\n"), "{text}");
    assert!(venue_check_text(&p, &None, &Vec::new()).contains("  validate()  = OK\n"));
    assert!(text.ends_with("--features live-smoke -- --ignored` path.\n"), "{text}");
}

#[test]
fn a_session_ends_with_its_first_problem() {
    let names = vec!["rtds feed driver".to_owned(), "binance feed driver".to_owned()];
    let mut s = Session::new(2);
    assert!(!s.is_closing() && !s.is_over());
    s.on_end(1, DriverEnd::Failed("refused".to_owned()));
    assert!(s.is_closing() && !s.is_over());
    assert!(s.runs(0) && !s.runs(1));
    s.on_end(0, DriverEnd::Clean);
    assert!(s.is_over());
    assert_eq!(s.outcome(&names), Err("binance feed driver failed: refused".to_owned()));

    let mut s = Session::new(2);
    s.on_stop();
    s.on_end(0, DriverEnd::Panicked);
    s.on_end(1, DriverEnd::Clean);
    assert_eq!(s.outcome(&names), Err("rtds feed driver panicked".to_owned()));

    let mut s = Session::new(1);
    s.on_stop();
    assert!(s.is_closing());
    s.on_end(0, DriverEnd::Clean);
    assert_eq!(s.outcome(&vec!["only".to_owned()]), Ok(()));
}

#[test]
fn dates_are_checked() {
    let d = parse_date("2024-02-29").unwrap();
    assert_eq!(d.dashed(), "2024-02-29");
    for (given, complaint) in [
        ("2024-02", "--date must be YYYY-MM-DD, got \"2024-02\""),
        ("x-02-01", "--date has an invalid year in \"x-02-01\""),
        ("2024-x-01", "--date has an invalid month in \"2024-x-01\""),
        ("2024-02-x", "--date has an invalid day in \"2024-02-x\""),
        ("2024-13-01", "--date month must be 1..=12 in \"2024-13-01\""),
    ] {
        assert_eq!(parse_date(given), Err(complaint.to_owned()));
    }
    // The calendar's own words follow.
    for (given, y, m, day) in [("2023-02-29", 2023, 2, 29), ("10000-01-01", 10_000, 1, 1)] {
        let month = time::Month::try_from(m).unwrap();
        let e = time::Date::from_calendar_date(y, month, day).unwrap_err();
        assert_eq!(
            parse_date(given),
            Err(format!("--date {given:?} is not a valid calendar date: {e}"))
        );
    }
}

#[test]
fn commands_set_up_what_they_need() {
    let s = startup(&Command::Paper);
    assert_eq!((s.telemetry, s.boot_mode, s.restores), (true, Some("paper"), true));
    let s = startup(&Command::Run);
    assert_eq!((s.telemetry, s.boot_mode, s.restores), (true, Some("run"), false));
    let s = startup(&Command::Digest);
    assert_eq!((s.telemetry, s.boot_mode, s.restores), (false, None, false));
    let s = startup(&Command::Discover);
    assert_eq!((s.telemetry, s.boot_mode, s.restores), (true, None, false));
    assert_eq!(default_btc_5m_series(), btc5());
}

#[test]
fn the_configuration_directory() {
    assert_eq!(resolve_config_dir(Some("a"), Some("b")), "a");
    assert_eq!(resolve_config_dir(None, Some("b")), "b");
    assert_eq!(resolve_config_dir(None, Some("")), "config");
    assert_eq!(resolve_config_dir(None, None), "config");
}

#[test]
fn secrets_are_told_by_presence_alone() {
    let secrets = vec![("api_key".to_owned(), true), ("passphrase".to_owned(), false)];
    assert_eq!(
        presence_text(&secrets, true, false),
        "\nsecrets (values are env-only and never shown):\n  api_key: set\n  passphrase: not set\nlive arming gates: config_enabled=true env_confirmed=false (gate 3 is the dashboard arm action)\n"
    );
}
