//! The fair-value model: what it goes by, the run over one series, and the models of a session.

use updown_bot::decimal::{Amount, Figure};
use updown_bot::fair::{
    anchor_label, basis_params, calibration_path, fair_params, health_label, health_params,
    health_transition_line, quality_label, reason_label, reconcile, rule_label, AnchorSource,
    HealthTransition, Matched, ModelHealth, ModelHealthReason, PollAction, StrikeMatch, StrikePoll,
    StrikeQuality, StrikeRule, Verdict, VERIFY_ATTEMPTS,
};
use updown_bot::fair_state::{
    FairReading, FairShown, FairState, StrikeEstimate, StrikeEvent, VerifyResult,
    PRUNE_AFTER_CLOSE_MS, VERIFY_FALLBACK_MS,
};
use updown_bot::feed::FeedsConfig;
use updown_bot::floatkey::key_of_bits;
use updown_bot::model_runtime::ModelRuntime;
use updown_bot::types::{
    Asset, Id, Level, MarketInfo, Outcome, ResolutionKind, Series, TopOfBook, WindowDuration,
    WindowId, WindowLifecycle,
};

const VERIFY_TOL: f64 = 1e-9;

fn amount(text: &str) -> Amount {
    Amount::parse(text).unwrap()
}

fn figure(text: &str) -> Figure {
    Figure::parse(text).unwrap()
}

fn feeds() -> FeedsConfig {
    FeedsConfig {
        rtds_url: "wss://ws-live-data.example".to_owned(),
        rtds_ping_interval_ms: 5_000,
        rtds_stale_after_ms: 5_000,
        binance_ws_url: "wss://stream.binance.com:9443".to_owned(),
        binance_stale_after_ms: 2_000,
        binance_trade_stale_after_ms: 10_000,
        clob_market_ws_url: "wss://clob.example".to_owned(),
        clob_ping_interval_ms: 5_000,
        clob_book_stale_after_ms: 3_000,
        clob_presubscribe_lead_ms: 60_000,
        clob_book_publish_interval_ms: 100,
        clob_resolution_linger_ms: 120_000,
        ws_connect_timeout_ms: 5_000,
        reconnect_initial_backoff_ms: 250,
        reconnect_max_backoff_ms: 10_000,
        reconnect_backoff_multiplier: key_of_bits(2.0f64.to_bits()),
    }
}

#[test]
fn config_maps_into_model_params() {
    let cfg = feeds();
    assert_eq!(basis_params(&cfg).pairing_max_age_ms, cfg.binance_stale_after_ms);
    let fp = fair_params(&cfg);
    assert_eq!(fp.chainlink_stale_ms, cfg.rtds_stale_after_ms);
    assert_eq!(fp.fast_stale_ms, cfg.binance_stale_after_ms);
    let hp = health_params(&cfg);
    assert_eq!(hp.chainlink_stale_ms, cfg.rtds_stale_after_ms);
    assert!(hp.chainlink_fresh_ms < hp.chainlink_stale_ms);
    assert_eq!(hp.chainlink_fresh_ms, 3_000);
}

#[test]
fn the_tightest_bound_leaves_room_to_recover() {
    let mut cfg = feeds();
    cfg.rtds_stale_after_ms = 1;
    assert_eq!(health_params(&cfg).chainlink_fresh_ms, 0);
}

#[test]
fn calibration_path_is_stamped_and_namespaced() {
    let s = calibration_path(
        Series { asset: Asset::Eth, duration: WindowDuration::H1 },
        1_781_290_500_000,
    );
    assert!(s.contains("calibration"), "{s}");
    assert!(s.contains("fair-ETH-1h-"), "{s}");
    assert!(s.ends_with(".jsonl"), "{s}");
    assert_eq!(s, "data/calibration/fair-ETH-1h-20260612-185500.jsonl");
}

struct StrikeCandidates {
    chosen: Option<f64>,
    before: Option<f64>,
    after: Option<f64>,
}

fn relative(ours: Option<f64>, venue: Option<f64>) -> Option<f64> {
    match (ours, venue) {
        (Some(a), Some(b)) => Some(((a - b) / b).abs()),
        _ => None,
    }
}

fn compared(c: &StrikeCandidates, price_to_beat: Option<f64>) -> Option<StrikeMatch> {
    let is = |ours: Option<f64>| relative(ours, price_to_beat).map(|d| d < VERIFY_TOL);
    price_to_beat?;
    Some(StrikeMatch { chosen: is(c.chosen), before: is(c.before), after: is(c.after) })
}

#[test]
fn reconcile_exact_when_chosen_matches_price_to_beat() {
    let candidates = StrikeCandidates {
        chosen: Some(63_788.969_145_188_41),
        before: Some(63_788.969_145_188_41),
        after: Some(63_790.0),
    };
    let beat = Some(63_788.969_145_188_41);
    let (matched, verdict) = reconcile(compared(&candidates, beat));
    assert_eq!(verdict.text(), "exact");
    assert_eq!(matched.text(), "before");
    assert!(relative(candidates.chosen, beat).unwrap() < VERIFY_TOL);
}

#[test]
fn reconcile_mismatch_when_chosen_differs() {
    let candidates = StrikeCandidates {
        chosen: Some(63_700.0),
        before: Some(63_700.0),
        after: Some(63_788.969_145_188_41),
    };
    let beat = Some(63_788.969_145_188_41);
    let (matched, verdict) = reconcile(compared(&candidates, beat));
    assert_eq!(verdict.text(), "mismatch");
    assert_eq!(matched.text(), "after");
    assert!(relative(candidates.chosen, beat).unwrap() > VERIFY_TOL);
}

#[test]
fn reconcile_unavailable_without_metadata() {
    let candidates = StrikeCandidates { chosen: None, before: None, after: None };
    let (matched, verdict) = reconcile(compared(&candidates, None));
    assert_eq!(verdict.text(), "unavailable");
    assert_eq!(matched.text(), "none");
    assert!(relative(candidates.chosen, None).is_none());
}

#[test]
fn reconcile_tells_the_other_cases_apart() {
    let both = StrikeMatch { chosen: Some(true), before: Some(true), after: Some(true) };
    assert_eq!(reconcile(Some(both)), (Matched::Both, Verdict::Exact));
    let none = StrikeMatch { chosen: None, before: None, after: Some(false) };
    let (matched, verdict) = reconcile(Some(none));
    assert_eq!((matched.text(), verdict.text()), ("none", "no_strike"));
    assert_eq!(Matched::Both.text(), "both");
}

#[test]
fn labels_are_single_words() {
    assert_eq!(rule_label(StrikeRule::LastAtOrBefore), "last_at_or_before");
    assert_eq!(quality_label(StrikeQuality::Boundary), "boundary");
    assert_eq!(anchor_label(None), "none");
    assert_eq!(anchor_label(Some(AnchorSource::BinanceCorrected)), "binance_corrected");
    assert_eq!(health_label(ModelHealth::Unreliable), "unreliable");
    assert_eq!(reason_label(ModelHealthReason::FastLeadLost), "fast_lead_lost");
}

#[test]
fn a_strike_is_asked_for_a_bounded_number_of_times() {
    let mut poll = StrikePoll::new();
    for _ in 1..VERIFY_ATTEMPTS {
        assert_eq!(poll.after(false), PollAction::AskAgain);
    }
    assert_eq!(poll.after(false), PollAction::GiveUp);
    let mut poll = StrikePoll::new();
    assert_eq!(poll.after(false), PollAction::AskAgain);
    assert_eq!(poll.after(true), PollAction::Report);
}

fn btc5() -> Series {
    Series { asset: Asset::Btc, duration: WindowDuration::M5 }
}

fn window(s: Series, open_ms: i64) -> WindowId {
    WindowId { series: s, open_ms }
}

fn market(s: Series, open_ms: i64) -> MarketInfo {
    MarketInfo {
        window: window(s, open_ms),
        event_slug: format!("slug-{open_ms}"),
        condition_id: Id::new("0x11"),
        up_token: Id::new(&format!("up-{open_ms}")),
        down_token: Id::new(&format!("down-{open_ms}")),
        close_ms: open_ms + 300_000,
        tick_size: amount("0.01"),
        fee_rate: figure("0.07"),
        rebate_rate: figure("0.2"),
        fees_enabled: true,
        taker_only: true,
        min_order_size: amount("5"),
        neg_risk: false,
        resolution_kind: ResolutionKind::ChainlinkDataStream,
        resolution_raw: "https://data.chain.link/streams/btc-usd".to_owned(),
    }
}

fn reading(w: WindowId, publishable: bool) -> FairReading {
    FairReading {
        window: w,
        tau_secs: 12,
        strike: StrikeEstimate {
            k: None,
            rule: StrikeRule::LastAtOrBefore,
            quality: StrikeQuality::Missing,
            frozen: false,
            before_ms: Some(-5),
            after_ms: None,
        },
        chainlink_price: None,
        chainlink_age_ms: None,
        fast_price: None,
        fast_age_ms: None,
        anchor_price: None,
        anchor: None,
        basis_bps: None,
        divergence_bps: None,
        sigma_1s: None,
        sigma_tau: None,
        z: None,
        p_up: None,
        publishable,
        health: ModelHealth::Unreliable,
        reason: ModelHealthReason::Warming,
    }
}

fn transition() -> HealthTransition {
    HealthTransition {
        from: ModelHealth::Unreliable,
        to: ModelHealth::Ready,
        reason: ModelHealthReason::Nominal,
        at_ms: 1_000,
    }
}

#[test]
fn new_builds_one_model_per_asset() {
    let series_list = vec![
        Series { asset: Asset::Btc, duration: WindowDuration::M5 },
        Series { asset: Asset::Btc, duration: WindowDuration::M15 },
        Series { asset: Asset::Eth, duration: WindowDuration::M5 },
    ];
    let rt = ModelRuntime::new(&series_list);
    assert_eq!(rt.asset_count(), 2);
}

#[test]
fn window_open_creates_engine_and_tracks_current() {
    let s = btc5();
    let mut rt = ModelRuntime::new(&vec![s]);
    rt.on_window(&market(s, 0), WindowLifecycle::Open, true);
    assert_eq!(rt.engine_count(), 1);
    assert_eq!(rt.current_window(s), Some(window(s, 0)));
}

#[test]
fn heartbeat_on_unwarmed_window_publishes_no_model_snapshot() {
    let s = btc5();
    let mut rt = ModelRuntime::new(&vec![s]);
    rt.on_window(&market(s, 0), WindowLifecycle::Open, true);
    let readings: Vec<FairReading> =
        rt.active().into_iter().map(|w| reading(w, false)).collect();
    assert_eq!(readings.len(), 1);
    rt.on_readings(&readings);
    assert!(rt.to_publish().is_empty(), "no fair snapshot before warmup");
}

#[test]
fn prune_drops_superseded_windows() {
    let s = btc5();
    let mut rt = ModelRuntime::new(&vec![s]);
    rt.on_window(&market(s, 0), WindowLifecycle::Open, true);
    rt.on_window(&market(s, 300_000), WindowLifecycle::Open, true);
    assert_eq!(rt.engine_count(), 2);
    let gone = rt.prune(300_000 + PRUNE_AFTER_CLOSE_MS + 1);
    assert_eq!(gone, vec![window(s, 0)]);
    assert_eq!(rt.engine_count(), 1);
    assert_eq!(rt.current_window(s), Some(window(s, 300_000)));
}

#[test]
fn an_unpriceable_window_is_asked_for_again() {
    let s = btc5();
    let mut rt = ModelRuntime::new(&vec![s]);
    assert!(rt.asks_for_price(window(s, 0), WindowLifecycle::Discovered));
    rt.on_window(&market(s, 0), WindowLifecycle::Discovered, false);
    assert_eq!(rt.engine_count(), 0);
    assert!(rt.asks_for_price(window(s, 0), WindowLifecycle::Open));
    rt.on_window(&market(s, 0), WindowLifecycle::Open, true);
    assert!(!rt.asks_for_price(window(s, 0), WindowLifecycle::Open));
    assert_eq!(rt.windows_of(Asset::Btc), vec![window(s, 0)]);
    assert!(rt.windows_of(Asset::Eth).is_empty());
    assert!(rt.knows(Asset::Btc));
    assert!(!rt.knows(Asset::Eth));
}

#[test]
fn a_window_that_can_be_published_speaks_for_its_asset() {
    let five = btc5();
    let quarter = Series { asset: Asset::Btc, duration: WindowDuration::M15 };
    let mut rt = ModelRuntime::new(&vec![five, quarter]);
    rt.on_window(&market(five, 0), WindowLifecycle::Open, true);
    rt.on_window(&market(quarter, 0), WindowLifecycle::Open, true);
    rt.on_readings(&vec![reading(window(five, 0), false), reading(window(quarter, 0), true)]);
    assert_eq!(rt.representative(Asset::Btc).unwrap().window, window(quarter, 0));
    assert_eq!(rt.representative(Asset::Eth), None);
    rt.on_health(
        Asset::Btc,
        ModelHealth::Ready,
        ModelHealthReason::Nominal,
        Some(transition()),
    );
    let out = rt.to_publish();
    assert_eq!(out.len(), 1);
    assert_eq!(out[0].health, ModelHealth::Ready);
    assert_eq!(rt.next_health(Asset::Btc), Some(transition()));
    rt.on_health_sent(Asset::Btc);
    assert_eq!(rt.next_health(Asset::Btc), None);
}

fn shown() -> FairShown {
    FairShown {
        k: None,
        chainlink: None,
        chainlink_age: None,
        fast: None,
        fast_age: None,
        anchor_price: None,
        basis: None,
        divergence: None,
        sigma_1s: None,
        sigma_tau: None,
        z: None,
        p_up: None,
        mid: None,
        gap: None,
    }
}

#[test]
fn a_fair_run_over_one_window() {
    let s = btc5();
    let w = window(s, 0);
    let m = market(s, 0);
    let mut st = FairState::new(s, 5_000);
    assert!(st.asks_for_price(w, WindowLifecycle::Open));
    let fx = st.on_window(&m, WindowLifecycle::Open, None, 0);
    assert!(fx.outcome.is_none() && fx.verify.is_none());
    assert!(!st.asks_for_price(w, WindowLifecycle::Open));
    assert_eq!(st.to_read(), Some(w));

    let level = |p: &str| Some(Level { price: amount(p), size: amount("10") });
    st.on_book(&Id::new("up-0"), TopOfBook { bid: level("0.60"), ask: level("0.63") });
    assert_eq!(st.up_mid(), Some(figure("0.6150")));

    assert!(st.on_price(Asset::Btc, &vec![StrikeEvent { window: w, revision: false }], 10));
    assert!(!st.on_price(Asset::Eth, &Vec::new(), 11));

    // Warming up: a reading without a probability is not published.
    st.on_reading(reading(w, false), None, false, 1_000);
    assert_eq!(st.to_publish(), None);
    // Model and book drift apart; a breach needs the whole of its time.
    st.on_reading(reading(w, true), Some(transition()), true, 2_000);
    assert_eq!(st.to_publish(), Some(reading(w, true)));
    st.on_published(true);
    let snap = st.take_snapshot(2_000).unwrap();
    assert!(!snap.sanity_breach);
    assert_eq!(snap.book_mid_up, Some(figure("0.6150")));
    assert_eq!(snap.window, w.text());
    assert_eq!((snap.slug.as_str(), snap.strike_quality, snap.anchor), ("slug-0", "missing", "none"));
    assert!(st.take_snapshot(2_999).is_none());
    st.on_reading(reading(w, true), None, true, 6_999);
    assert!(!st.take_snapshot(6_999).unwrap().sanity_breach);
    st.on_reading(reading(w, true), None, true, 7_999);
    assert!(st.take_snapshot(7_999).unwrap().sanity_breach);
    st.on_journaled();
    assert_eq!(st.next_health(), Some(transition()));
    st.on_health_sent();
    assert_eq!(st.next_health(), None);

    let frame = st.draw(&shown(), 8_000);
    assert!(frame.starts_with("\u{1b}[H\u{1b}[J"), "{frame}");
    assert!(frame.contains("STRIKE FROZEN slug-0"), "{frame}");
    assert!(frame.contains("MODEL HEALTH BTC unreliable -> ready (nominal)"), "{frame}");
    assert!(frame.contains("[before -5ms, after -]"), "{frame}");

    let fx = st.on_window(&m, WindowLifecycle::Resolved { outcome: Outcome::Up }, None, 300_000);
    let out = fx.outcome.unwrap();
    assert_eq!((out.slug.as_str(), out.outcome.as_str(), out.ts), ("slug-0", "Up", 300_000));
    assert_eq!(fx.verify.unwrap().slug, "slug-0");
    // A window is checked once.
    assert!(st.check_overdue(300_000 + VERIFY_FALLBACK_MS).is_empty());
    st.on_verify(
        &VerifyResult {
            slug: "slug-0".to_owned(),
            matched: Matched::Before,
            verdict: Verdict::Exact,
            price_to_beat: Some("63788.97".to_owned()),
        },
        301_000,
    );
    let frame = st.draw(&shown(), 301_000);
    assert!(frame.contains("VERIFY slug-0 exact (matched before, priceToBeat 63788.97)"), "{frame}");
    let sum = st.summary(301_000);
    assert_eq!(
        sum,
        "\nrun summary: 1 ticks, 1 snapshots published (0 dropped), 1 journaled, 1 resolutions, \
         verify 1/1 exact (0 mismatch, 0 unavailable) over 05:01"
    );
}

#[test]
fn a_window_that_never_resolves_is_checked_late_and_then_let_go() {
    let s = btc5();
    let mut st = FairState::new(s, 5_000);
    st.on_window(&market(s, 0), WindowLifecycle::Open, None, 0);
    st.on_window(&market(s, 300_000), WindowLifecycle::Discovered, Some("no strike source"), 1);
    assert!(st.asks_for_price(window(s, 300_000), WindowLifecycle::Open));
    st.on_window(&market(s, 300_000), WindowLifecycle::Open, None, 300_000);
    assert!(st.check_overdue(300_000 + VERIFY_FALLBACK_MS - 1).is_empty());
    let jobs = st.check_overdue(300_000 + VERIFY_FALLBACK_MS);
    assert_eq!(jobs.len(), 1);
    assert_eq!(jobs[0].window, window(s, 0));
    assert!(st.check_overdue(300_000 + VERIFY_FALLBACK_MS).is_empty());
    assert!(st.prune(300_000 + PRUNE_AFTER_CLOSE_MS - 1).is_empty());
    assert_eq!(st.prune(300_000 + PRUNE_AFTER_CLOSE_MS), vec![window(s, 0)]);
    assert_eq!(st.to_read(), Some(window(s, 300_000)));
    let frame = st.draw(&shown(), 500_000);
    assert!(frame.contains("UNPRICEABLE slug-300000: no strike source"), "{frame}");
}

#[test]
fn another_series_is_not_followed() {
    let s = btc5();
    let eth = Series { asset: Asset::Eth, duration: WindowDuration::M5 };
    let mut st = FairState::new(s, 5_000);
    st.on_window(&market(eth, 0), WindowLifecycle::Open, None, 0);
    assert_eq!(st.to_read(), None);
    assert_eq!(st.last_reading(), None);
    assert!(st.take_snapshot(0).is_none());
}

#[test]
fn a_health_change_on_a_line() {
    assert_eq!(
        health_transition_line(Asset::Eth, transition()),
        "MODEL HEALTH ETH unreliable -> ready (nominal)"
    );
}
