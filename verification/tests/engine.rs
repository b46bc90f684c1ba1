//! The analytics fold over a session's events.

use updown_bot::attribution::{taker_fee, WindowAttribution};
use updown_bot::datekey::DayKey;
use updown_bot::decimal::Amount;
use updown_bot::engine::{Analytics, AnalyticsEffect, AnalyticsEvent, MarketMeta};
use updown_bot::floatkey::{bits_of_key, key_of_bits};
use updown_bot::markout::{FillMarkout, MarkoutPoint, TerminalFair};
use updown_bot::params::AnalyticsParams;
use updown_bot::rollup::{ComparisonWindow, SortColumn};
use updown_bot::table::Table;
use updown_bot::types::{
    Asset, Fill, Liquidity, Mode, Outcome, Series, SettlementSummary, Side, SideInventory,
    WindowDuration, WindowId, WindowLifecycle,
};

const OPEN_MS: i64 = 1_781_481_600_000; // 2026-06-15T00:00:00Z

fn dec(text: &str) -> Amount {
    Amount::parse(text).unwrap()
}

fn key(x: f64) -> i64 {
    key_of_bits(x.to_bits())
}

fn reading(key: i64) -> f64 {
    f64::from_bits(bits_of_key(key))
}

fn series() -> Series {
    Series { asset: Asset::Btc, duration: WindowDuration::M5 }
}

fn window_at(open_ms: i64) -> WindowId {
    WindowId { series: series(), open_ms }
}

fn meta_at(open_ms: i64) -> MarketMeta {
    MarketMeta { fee_rate: dec("0.07"), rebate_rate: dec("0.2"), close_ms: open_ms + 300_000 }
}

/// An event of a script: a settlement's markouts and means are taken when it is played.
#[derive(Clone)]
enum Step {
    Plain(AnalyticsEvent),
    Settle(SettlementSummary),
}

fn window_event(open_ms: i64, lifecycle: WindowLifecycle) -> Step {
    Step::Plain(AnalyticsEvent::Window {
        window: window_at(open_ms),
        meta: meta_at(open_ms),
        lifecycle,
    })
}

fn fill_at(
    window: WindowId,
    outcome: Outcome,
    price: &str,
    size: &str,
    liquidity: Liquidity,
    ts: i64,
) -> Step {
    let fee = if liquidity == Liquidity::Taker {
        taker_fee(&dec(size), &dec("0.07"), &dec(price))
    } else {
        Amount::zero()
    };
    Step::Plain(AnalyticsEvent::Fill(Fill {
        window,
        outcome,
        side: Side::Buy,
        price: dec(price),
        size: dec(size),
        liquidity,
        fee,
        ts_venue_ms: ts,
    }))
}

fn maker_fill(outcome: Outcome, price: &str, size: &str, ts: i64) -> Step {
    fill_at(window_at(OPEN_MS), outcome, price, size, Liquidity::Maker, ts)
}

fn model_at(window: WindowId, p_up: f64, ts_ms: i64) -> Step {
    Step::Plain(AnalyticsEvent::Model { of: Some(window), ts_ms, p_up: key(p_up) })
}

fn model(p_up: f64, ts: i64) -> Step {
    model_at(window_at(OPEN_MS), p_up, ts)
}

fn settlement_at(
    open_ms: i64,
    realized: &str,
    up: (&str, &str),
    down: (&str, &str),
    fees: &str,
) -> Step {
    Step::Settle(SettlementSummary::close(
        window_at(open_ms),
        Outcome::Up,
        SideInventory { shares: dec(up.0), cost: dec(up.1) },
        SideInventory { shares: dec(down.0), cost: dec(down.1) },
        Amount::zero(),
        dec(fees),
        dec(realized),
        open_ms + 300_000,
    ))
}

fn fair_of(outcome: Outcome, up: f64) -> f64 {
    match outcome {
        Outcome::Up => up,
        Outcome::Down => 1.0 - up,
    }
}

fn value(fm: &FillMarkout, p: MarkoutPoint) -> f64 {
    let terminal = match p.terminal {
        TerminalFair::UpReading(k) => fair_of(fm.outcome, reading(k)),
        TerminalFair::Won => 1.0,
        TerminalFair::Lost => 0.0,
    };
    let sign = match fm.side {
        Side::Buy => 1.0,
        Side::Sell => -1.0,
    };
    sign * (terminal - fair_of(fm.outcome, reading(fm.anchor)))
}

/// Plays one step and says what event it was.
fn play(a: &mut Analytics, step: &Step) -> (AnalyticsEvent, Vec<AnalyticsEffect>) {
    let event = match step {
        Step::Plain(e) => e.clone(),
        Step::Settle(summary) => {
            let cap = AnalyticsParams::default().adverse.window as usize;
            let mut recent: Vec<f64> =
                a.recent_markouts(summary.window.series).into_iter().map(reading).collect();
            let mut markouts = Vec::new();
            let mut means = Vec::new();
            for fm in a.resolved_markouts(summary.window) {
                let m = value(&fm, fm.s5);
                recent.push(m);
                if recent.len() > cap {
                    recent.remove(0);
                }
                markouts.push(key(m));
                means.push(key(recent.iter().sum::<f64>() / recent.len() as f64));
            }
            AnalyticsEvent::Settlement { summary: *summary, markouts, means }
        }
    };
    let effects = a.on_event(&event);
    (event, effects)
}

fn play_all(a: &mut Analytics, steps: &[Step]) -> (Vec<AnalyticsEvent>, Vec<AnalyticsEffect>) {
    let mut events = Vec::new();
    let mut effects = Vec::new();
    for step in steps {
        let (event, mut out) = play(a, step);
        events.push(event);
        effects.append(&mut out);
    }
    (events, effects)
}

fn fresh() -> Analytics {
    Analytics::new(Mode::Paper, AnalyticsParams::default())
}

/// A full balanced-book session: open, readings, two maker fills, readings past the markout
/// deadlines, resolve Up, settle.
fn session() -> Vec<Step> {
    vec![
        window_event(OPEN_MS, WindowLifecycle::Open),
        model(0.50, OPEN_MS),
        maker_fill(Outcome::Up, "0.48", "100", OPEN_MS + 10),
        maker_fill(Outcome::Down, "0.49", "100", OPEN_MS + 20),
        model(0.52, OPEN_MS + 1_000),  // +1s after the fills
        model(0.55, OPEN_MS + 5_000),  // +5s
        model(0.60, OPEN_MS + 30_000), // +30s
        window_event(OPEN_MS, WindowLifecycle::Resolved { outcome: Outcome::Up }),
        // realized = cash(-97) + payout(100 Up) = 3.
        settlement_at(OPEN_MS, "3", ("100", "48"), ("100", "49"), "0"),
    ]
}

fn markouts(effects: &[AnalyticsEffect]) -> Vec<FillMarkout> {
    effects
        .iter()
        .filter_map(|e| match e {
            AnalyticsEffect::FillMarkout(f) => Some(*f),
            _ => None,
        })
        .collect()
}

fn settled(effects: &[AnalyticsEffect]) -> Vec<WindowAttribution> {
    effects
        .iter()
        .filter_map(|e| match e {
            AnalyticsEffect::WindowSettled(w) => Some(*w),
            _ => None,
        })
        .collect()
}

#[test]
fn folds_a_session_into_markouts_and_attribution() {
    let mut a = fresh();
    let (_, effects) = play_all(&mut a, &session());

    // Two markouts (at resolution) and one settled window.
    let marked = markouts(&effects);
    assert_eq!(marked.len(), 2);
    // Up fill bought at fair 0.50, fair rose to 0.55 at +5s: +0.05.
    let up = marked.iter().find(|f| f.outcome == Outcome::Up).unwrap();
    assert!((value(up, up.s5) - 0.05).abs() < 1e-12);
    // Up fill won: expiry +0.50.
    assert!((value(up, up.expiry) - 0.50).abs() < 1e-12);

    let done = settled(&effects);
    assert_eq!(done.len(), 1);
    assert_eq!(done[0].realized_pnl, dec("3"));
    assert_eq!(done[0].trading_sum(), dec("3"));
    // Maker rebate base = taker_fee(100,0.07,0.48) + taker_fee(100,0.07,0.49).
    assert!(done[0].estimated_rebate.is_positive());

    // The comparison row reflects the settled window.
    let rows = a.series_comparison();
    assert_eq!(rows.len(), 1);
    assert_eq!(rows[0].windows_traded, 1);
    assert_eq!(rows[0].net_pnl, dec("3"));
    assert_eq!(rows[0].maker_fills, 2);
    assert!(rows[0].min_sample_warning); // one window < default 30
    assert_eq!(a.mode(), Mode::Paper);
    assert!(a.daily(series(), DayKey::from_ts(OPEN_MS)).is_some());
}

#[test]
fn rebuild_equals_live_and_effect_streams_match() {
    let mut live = fresh();
    let (events, live_effects) = play_all(&mut live, &session());

    let rebuilt = Analytics::rebuild(Mode::Paper, AnalyticsParams::default(), &events);
    assert_eq!(
        format!("{rebuilt:?}"),
        format!("{live:?}"),
        "rebuilt state must equal the live engine"
    );

    let mut again = fresh();
    let again_effects: Vec<AnalyticsEffect> =
        events.iter().flat_map(|e| again.on_event(e)).collect();
    assert_eq!(again_effects, live_effects, "effect streams must match");
}

#[test]
fn untraded_window_frees_metadata_and_produces_nothing() {
    let mut a = fresh();
    let _ = play(&mut a, &window_event(OPEN_MS, WindowLifecycle::Open));
    assert_eq!(a.known_markets(), 1);
    let _ = play(&mut a, &model(0.5, OPEN_MS));
    let (_, effects) =
        play(&mut a, &window_event(OPEN_MS, WindowLifecycle::Resolved { outcome: Outcome::Up }));
    assert!(effects.is_empty());
    // No window traded: no comparison rows, and the metadata was freed.
    assert!(a.series_comparison().is_empty());
    assert_eq!(a.known_markets(), 0);
}

#[test]
fn maker_fill_without_a_snapshot_is_dropped_no_anchor() {
    let mut a = fresh();
    let _ = play(&mut a, &window_event(OPEN_MS, WindowLifecycle::Open));
    // Fill BEFORE any model reading: no anchor.
    let _ = play(&mut a, &maker_fill(Outcome::Up, "0.50", "100", OPEN_MS));
    let _ = play(&mut a, &model(0.5, OPEN_MS + 1_000));
    let (_, resolve) =
        play(&mut a, &window_event(OPEN_MS, WindowLifecycle::Resolved { outcome: Outcome::Up }));
    // The fill traded, so the window settles, but its markout was dropped.
    assert!(resolve.is_empty());
    assert_eq!(a.no_anchor_dropped(), 1);
    // Settlement still folds attribution.
    let (_, settle) =
        play(&mut a, &settlement_at(OPEN_MS, "50", ("100", "50"), ("0", "0"), "0"));
    assert!(matches!(settle[0], AnalyticsEffect::WindowSettled(_)));
}

/// The balanced session plus a taker BUY (40 Up @ 0.55).
fn session_with_taker() -> Vec<Step> {
    let w = window_at(OPEN_MS);
    vec![
        window_event(OPEN_MS, WindowLifecycle::Open),
        model(0.50, OPEN_MS),
        maker_fill(Outcome::Up, "0.48", "100", OPEN_MS + 10),
        maker_fill(Outcome::Down, "0.49", "100", OPEN_MS + 20),
        // Taker BUY: notional 40*0.55 = $22, fee 40*0.07*0.55*0.45 = 0.693.
        fill_at(w, Outcome::Up, "0.55", "40", Liquidity::Taker, OPEN_MS + 30),
        model(0.55, OPEN_MS + 5_000),
        window_event(OPEN_MS, WindowLifecycle::Resolved { outcome: Outcome::Up }),
        // Up 140 sh (cost 70), Down 100 sh (cost 49), fees 0.693.
        // cash = -(48+49+22) - 0.693 = -119.693; Up payout 140: realized 20.307.
        settlement_at(OPEN_MS, "20.307", ("140", "70"), ("100", "49"), "0.693"),
    ]
}

fn net_keys(a: &Analytics) -> Table<Series, i64> {
    let mut keys = Table::new();
    for row in a.series_comparison() {
        let net: f64 = row.net_pnl.text().parse().unwrap();
        keys.insert(row.series, key(net));
    }
    keys
}

#[test]
fn rebuild_equals_live_with_taker_and_distribution() {
    let mut live = fresh();
    let (events, live_effects) = play_all(&mut live, &session_with_taker());

    let rebuilt = Analytics::rebuild(Mode::Paper, AnalyticsParams::default(), &events);
    assert_eq!(
        format!("{rebuilt:?}"),
        format!("{live:?}"),
        "rebuilt state must equal the live engine"
    );

    let mut again = fresh();
    let again_effects: Vec<AnalyticsEffect> =
        events.iter().flat_map(|e| again.on_event(e)).collect();
    assert_eq!(again_effects, live_effects, "effect streams must match");

    // The row carries the taker notional and the maker/taker mix.
    let rows = live.series_comparison();
    assert_eq!(rows.len(), 1);
    assert_eq!(rows[0].maker_fills, 2);
    assert_eq!(rows[0].taker_fills, 1);
    assert_eq!(rows[0].taker_notional, dec("22"));
    let mix = rows[0].maker_fills as f64 / (rows[0].maker_fills + rows[0].taker_fills) as f64;
    assert!((mix - 2.0 / 3.0).abs() < 1e-12);
    // Fees paid is reported as a positive cost.
    assert_eq!(rows[0].fees_paid, dec("0.693"));

    // The dashboard query is stable across instances (deterministic fold).
    let today = DayKey::from_ts(OPEN_MS);
    assert_eq!(
        format!("{:?}", live.series_comparison_over(ComparisonWindow::All, today, &net_keys(&live))),
        format!(
            "{:?}",
            rebuilt.series_comparison_over(ComparisonWindow::All, today, &net_keys(&rebuilt))
        ),
        "live and rebuilt query output must be identical"
    );
}

/// A balanced two-maker-fill session at a given UTC open time, resolving Up.
fn balanced_session_at(open_ms: i64) -> Vec<Step> {
    let w = window_at(open_ms);
    vec![
        window_event(open_ms, WindowLifecycle::Open),
        model_at(w, 0.50, open_ms),
        fill_at(w, Outcome::Up, "0.48", "100", Liquidity::Maker, open_ms + 10),
        fill_at(w, Outcome::Down, "0.49", "100", Liquidity::Maker, open_ms + 20),
        model_at(w, 0.55, open_ms + 5_000),
        window_event(open_ms, WindowLifecycle::Resolved { outcome: Outcome::Up }),
        settlement_at(open_ms, "3", ("100", "48"), ("100", "49"), "0"),
    ]
}

#[test]
fn series_comparison_over_selects_by_day() {
    let mut a = fresh();
    let day0 = OPEN_MS;
    let day1 = OPEN_MS + 86_400_000; // next UTC day
    let _ = play_all(&mut a, &balanced_session_at(day0));
    let _ = play_all(&mut a, &balanced_session_at(day1));
    let today = DayKey::from_ts(day1);
    let keys = net_keys(&a);

    // Today (day1): just the one window.
    let today_table = a.series_comparison_over(ComparisonWindow::Today, today, &keys);
    assert_eq!(today_table.window, ComparisonWindow::Today);
    assert_eq!(today_table.day, today);
    assert_eq!(today_table.default_sort, SortColumn::NetPnl);
    assert_eq!(today_table.rows.len(), 1);
    assert_eq!(today_table.rows[0].windows_traded, 1);
    assert_eq!(today_table.rows[0].net_pnl, dec("3"));

    // Last 7 days: both windows.
    let week = a.series_comparison_over(ComparisonWindow::LastDays(7), today, &keys);
    assert_eq!(week.rows[0].windows_traded, 2);
    assert_eq!(week.rows[0].net_pnl, dec("6"));

    // The all-days view in series order.
    let all = a.series_comparison();
    assert_eq!(all.len(), 1);
    assert_eq!(all[0].windows_traded, 2);

    // Health is the current monitor state regardless of the calendar window.
    let h = a.series_health(series());
    assert_eq!(today_table.rows[0].health, h);
    assert_eq!(week.rows[0].health, h);
}

#[test]
fn events_that_fit_are_taken_and_others_left() {
    let mut live = fresh();
    let (events, effects) = play_all(&mut live, &session_with_taker());
    let mut taken = fresh();
    let mut out: Vec<AnalyticsEffect> = Vec::new();
    for e in &events {
        out.extend(taken.take(e).unwrap());
    }
    assert_eq!(out, effects);
    assert_eq!(format!("{taken:?}"), format!("{live:?}"));
    let today = DayKey::from_ts(OPEN_MS);
    assert!(taken.checked_comparison_rows(ComparisonWindow::All, today).is_some());

    // Whatever the decimals hold is taken, however large; what they do not hold is left.
    let Step::Plain(AnalyticsEvent::Fill(f)) = maker_fill(Outcome::Up, "0.5", "1", OPEN_MS) else {
        unreachable!()
    };
    let large = AnalyticsEvent::Fill(Fill {
        liquidity: Liquidity::Taker,
        price: dec("1"),
        size: dec("79228162514264337593543950335"),
        ..f
    });
    assert_eq!(taken.take(&large), Some(Vec::new()));
    let before = format!("{taken:?}");
    assert_eq!(taken.take(&large), None);
    assert_eq!(format!("{taken:?}"), before);
    // A settlement with more markouts than were resolved is left too.
    let Step::Settle(summary) =
        settlement_at(OPEN_MS + 600_000, "1", ("0.0000000000001", "1"), ("0", "0"), "0")
    else {
        unreachable!()
    };
    let more = AnalyticsEvent::Settlement { summary, markouts: vec![0], means: vec![0] };
    assert_eq!(taken.take(&more), None);
    let tiny = AnalyticsEvent::Settlement { summary, markouts: Vec::new(), means: Vec::new() };
    assert_eq!(taken.take(&tiny).unwrap().len(), 1);
}

#[test]
fn figures_beyond_the_decimals_leave_no_comparison() {
    let mut a = fresh();
    for k in 0..2i64 {
        let at = OPEN_MS + k * 86_400_000;
        let Step::Settle(summary) = settlement_at(at, "0", ("0", "0"), ("0", "0"), "0") else {
            unreachable!()
        };
        let summary = SettlementSummary { realized_pnl: dec("79228162514264337593543950335"), ..summary };
        assert!(a
            .take(&AnalyticsEvent::Settlement { summary, markouts: Vec::new(), means: Vec::new() })
            .is_some());
    }
    let day = DayKey::from_ts(OPEN_MS + 86_400_000);
    let keys: Table<Series, i64> = Table::new();
    assert!(a.checked_comparison_over(ComparisonWindow::Today, day, &keys).is_some());
    assert!(a.checked_comparison_over(ComparisonWindow::All, day, &keys).is_none());
}

#[test]
fn restoring_a_journal_gives_the_live_state() {
    let mut live = fresh();
    let (events, _) = play_all(&mut live, &session());
    let params = AnalyticsParams::default();
    let restored = Analytics::restore(Mode::Paper, params, &events).unwrap();
    assert_eq!(format!("{restored:?}"), format!("{live:?}"));
    let mut broken = events.clone();
    broken.push(AnalyticsEvent::Settlement {
        summary: match settlement_at(OPEN_MS, "1", ("1", "1"), ("0", "0"), "0") {
            Step::Settle(s) => s,
            Step::Plain(_) => unreachable!(),
        },
        markouts: vec![0],
        means: vec![0],
    });
    assert!(Analytics::restore(Mode::Paper, params, &broken).is_none());
}
