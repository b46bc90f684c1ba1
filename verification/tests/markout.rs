//! Markouts of passive fills.

use updown_bot::floatkey::{bits_of_key, key_of_bits};
use updown_bot::markout::{
    FillMarkout, MarkoutEngine, MarkoutHorizon, MarkoutPoint, MarkoutSource, TerminalFair,
};
use updown_bot::types::{Asset, Outcome, Series, Side, WindowDuration, WindowId};

const OPEN_MS: i64 = 1_781_000_000_000;
const CLOSE_MS: i64 = OPEN_MS + 300_000; // 5-minute window

fn key(x: f64) -> i64 {
    key_of_bits(x.to_bits())
}

fn reading(key: i64) -> f64 {
    f64::from_bits(bits_of_key(key))
}

fn window() -> WindowId {
    WindowId {
        series: Series { asset: Asset::Btc, duration: WindowDuration::M5 },
        open_ms: OPEN_MS,
    }
}

/// The fair value of an outcome at a reading of the Up probability.
fn fair_of(outcome: Outcome, up: f64) -> f64 {
    match outcome {
        Outcome::Up => up,
        Outcome::Down => 1.0 - up,
    }
}

fn fair_at_fill(fm: &FillMarkout) -> f64 {
    fair_of(fm.outcome, reading(fm.anchor))
}

fn value(fm: &FillMarkout, p: MarkoutPoint) -> f64 {
    let terminal = match p.terminal {
        TerminalFair::UpReading(k) => fair_of(fm.outcome, reading(k)),
        TerminalFair::Won => 1.0,
        TerminalFair::Lost => 0.0,
    };
    let sign = match fm.side {
        Side::Buy => 1.0,
        Side::Sell => -1.0,
    };
    sign * (terminal - fair_at_fill(fm))
}

/// A single passive fill marked out, given a script of readings.
fn mark_one(
    snaps: &[(i64, f64)],
    outcome: Outcome,
    side: Side,
    fill_ms: i64,
    winner: Outcome,
) -> Option<FillMarkout> {
    let mut e = MarkoutEngine::new(1024);
    for (ms, fair) in snaps {
        e.on_snapshot(window(), *ms, key(*fair));
    }
    e.on_fill(window(), outcome, side, fill_ms);
    e.on_resolved(window(), winner, CLOSE_MS).into_iter().next()
}

#[test]
fn buy_up_positive_when_fair_rises() {
    // Reading 0.50 at fill, 0.55 at +5s: +0.05 markout.
    let fm = mark_one(
        &[(OPEN_MS, 0.50), (OPEN_MS + 5_000, 0.55)],
        Outcome::Up,
        Side::Buy,
        OPEN_MS,
        Outcome::Up,
    )
    .expect("a markout");
    assert!((fair_at_fill(&fm) - 0.50).abs() < 1e-12);
    assert!((value(&fm, fm.s5) - 0.05).abs() < 1e-12);
    assert_eq!(fm.s5.source, MarkoutSource::Snapshot);
    assert_eq!(fm.at(MarkoutHorizon::S5), fm.s5);
}

#[test]
fn buy_up_negative_when_picked_off() {
    // Bought Up at 0.50, fair drops to 0.45 over 5s: -0.05 (adverse).
    let fm = mark_one(
        &[(OPEN_MS, 0.50), (OPEN_MS + 5_000, 0.45)],
        Outcome::Up,
        Side::Buy,
        OPEN_MS,
        Outcome::Up,
    )
    .expect("a markout");
    assert!((value(&fm, fm.s5) - (-0.05)).abs() < 1e-12);
}

#[test]
fn buy_down_uses_one_minus_p_up() {
    // Bought Down; p_up falls 0.50 to 0.40 so Down's fair rises 0.50 to 0.60: +0.10.
    let fm = mark_one(
        &[(OPEN_MS, 0.50), (OPEN_MS + 5_000, 0.40)],
        Outcome::Down,
        Side::Buy,
        OPEN_MS,
        Outcome::Down,
    )
    .expect("a markout");
    assert!((fair_at_fill(&fm) - 0.50).abs() < 1e-12);
    assert!((value(&fm, fm.s5) - 0.10).abs() < 1e-12);
}

#[test]
fn sell_flips_the_sign() {
    // SELL Up; fair rises 0.50 to 0.55: markout -0.05.
    let fm = mark_one(
        &[(OPEN_MS, 0.50), (OPEN_MS + 5_000, 0.55)],
        Outcome::Up,
        Side::Sell,
        OPEN_MS,
        Outcome::Up,
    )
    .expect("a markout");
    assert!((value(&fm, fm.s5) - (-0.05)).abs() < 1e-12);
}

#[test]
fn locf_uses_latest_snapshot_at_or_before_deadline() {
    // Deadline exactly on a reading's time uses that reading; a later one is ignored.
    let fm = mark_one(
        &[
            (OPEN_MS, 0.50),
            (OPEN_MS + 5_000, 0.60), // exactly at the 5s deadline
            (OPEN_MS + 6_000, 0.99), // after: must not be used
        ],
        Outcome::Up,
        Side::Buy,
        OPEN_MS,
        Outcome::Up,
    )
    .expect("a markout");
    assert!((value(&fm, fm.s5) - 0.10).abs() < 1e-12);
}

#[test]
fn expiry_uses_terminal_outcome() {
    // Bought Up at 0.50; the window resolves Up: expiry fair 1.0, +0.50.
    let up = mark_one(&[(OPEN_MS, 0.50)], Outcome::Up, Side::Buy, OPEN_MS, Outcome::Up)
        .expect("a markout");
    assert!((value(&up, up.expiry) - 0.50).abs() < 1e-12);
    assert_eq!(up.expiry.source, MarkoutSource::Settled);
    // Resolves Down instead: expiry fair 0.0, -0.50.
    let down = mark_one(&[(OPEN_MS, 0.50)], Outcome::Up, Side::Buy, OPEN_MS, Outcome::Down)
        .expect("a markout");
    assert!((value(&down, down.expiry) - (-0.50)).abs() < 1e-12);
}

#[test]
fn near_close_horizon_clamps_to_settlement() {
    // Fill 2s before close: the 5s/30s deadlines are past close and clamp to the outcome.
    let fill_ms = CLOSE_MS - 2_000;
    let fm = mark_one(
        &[(OPEN_MS, 0.50), (fill_ms, 0.80)],
        Outcome::Up,
        Side::Buy,
        fill_ms,
        Outcome::Up, // won: terminal 1.0
    )
    .expect("a markout");
    // 1s deadline (still before close) uses the reading 0.80: no move.
    assert_eq!(fm.s1.source, MarkoutSource::Snapshot);
    assert!((value(&fm, fm.s1) - 0.0).abs() < 1e-12);
    // 5s deadline is past close: terminal 1.0 - fair at fill 0.80 = +0.20.
    assert_eq!(fm.s5.source, MarkoutSource::Settled);
    assert!((value(&fm, fm.s5) - 0.20).abs() < 1e-12);
}

#[test]
fn fill_before_any_snapshot_is_dropped_no_anchor() {
    let mut e = MarkoutEngine::new(1024);
    // First reading is AFTER the fill: no anchor at or before the fill.
    e.on_fill(window(), Outcome::Up, Side::Buy, OPEN_MS);
    e.on_snapshot(window(), OPEN_MS + 1_000, key(0.5));
    assert_eq!(e.active_windows(), 1);
    let out = e.on_resolved(window(), Outcome::Up, CLOSE_MS);
    assert!(out.is_empty(), "no markout without an anchor");
    assert_eq!(e.no_anchor_dropped(), 1);
    assert_eq!(e.active_windows(), 0);
}

#[test]
fn markouts_returned_in_fill_order() {
    let mut e = MarkoutEngine::new(1024);
    e.on_snapshot(window(), OPEN_MS, key(0.5));
    e.on_fill(window(), Outcome::Up, Side::Buy, OPEN_MS + 10);
    e.on_fill(window(), Outcome::Down, Side::Buy, OPEN_MS + 20);
    let out = e.on_resolved(window(), Outcome::Up, CLOSE_MS);
    assert_eq!(out.len(), 2);
    assert_eq!(out[0].ts_fill_ms, OPEN_MS + 10);
    assert_eq!(out[1].ts_fill_ms, OPEN_MS + 20);
}

#[test]
fn ring_hard_cap_drops_oldest() {
    let mut e = MarkoutEngine::new(2);
    e.on_snapshot(window(), OPEN_MS, key(0.10));
    e.on_snapshot(window(), OPEN_MS + 1_000, key(0.20));
    e.on_snapshot(window(), OPEN_MS + 2_000, key(0.30));
    // Cap 2: the first reading went, so a fill at the opening has no anchor any more.
    e.on_fill(window(), Outcome::Up, Side::Buy, OPEN_MS);
    let out = e.on_resolved(window(), Outcome::Up, CLOSE_MS);
    assert!(out.is_empty());
    assert_eq!(e.no_anchor_dropped(), 1);
}

#[test]
fn resolving_unknown_window_is_empty() {
    let mut e = MarkoutEngine::new(8);
    assert!(e.on_resolved(window(), Outcome::Up, CLOSE_MS).is_empty());
}

#[test]
fn horizons_lie_at_their_offsets() {
    assert_eq!(MarkoutHorizon::S1.offset_ms(), Some(1_000));
    assert_eq!(MarkoutHorizon::S5.offset_ms(), Some(5_000));
    assert_eq!(MarkoutHorizon::S30.offset_ms(), Some(30_000));
    assert_eq!(MarkoutHorizon::Expiry.offset_ms(), None);
}
