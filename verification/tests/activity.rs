//! Order activity and calendar days.

use updown_bot::activity::OrderActivity;
use updown_bot::datekey::{DayKey, MS_PER_DAY};
use updown_bot::decimal::Amount;
use updown_bot::types::{
    Asset, Fill, Id, Liquidity, OrderState, OrderUpdate, Outcome, Series, Side, WindowDuration,
    WindowId,
};

const T0: i64 = 1_781_000_000_000;

fn dec(text: &str) -> Amount {
    Amount::parse(text).unwrap()
}

fn series(asset: Asset) -> Series {
    Series { asset, duration: WindowDuration::M5 }
}

fn window(asset: Asset) -> WindowId {
    WindowId { series: series(asset), open_ms: T0 }
}

fn update(id: &str, asset: Asset, side: Side, state: OrderState) -> OrderUpdate {
    OrderUpdate {
        order_id: Id::new(id),
        window: window(asset),
        side,
        state,
        price: dec("0.5"),
        filled_size: Amount::zero(),
        reject_reason: None,
    }
}

fn fill(asset: Asset, ms: i64) -> Fill {
    Fill {
        window: window(asset),
        outcome: Outcome::Up,
        side: Side::Buy,
        price: dec("0.5"),
        size: dec("10"),
        liquidity: Liquidity::Maker,
        fee: Amount::zero(),
        ts_venue_ms: ms,
    }
}

#[test]
fn last_minute_counts_respect_the_window() {
    let mut a = OrderActivity::new();
    let now = T0 + 1_000_000;
    // Three placements inside the last minute, one 90s ago.
    a.on_order(&update("a", Asset::Btc, Side::Buy, OrderState::Open), now);
    a.on_order(&update("b", Asset::Btc, Side::Buy, OrderState::Open), now);
    a.on_order(&update("c", Asset::Btc, Side::Buy, OrderState::Open), now);
    a.on_order(&update("d", Asset::Btc, Side::Buy, OrderState::Open), now - 90_000);
    assert_eq!(a.placed_since(now, 60_000, None), 3);
    assert_eq!(a.placed_since(now, 120_000, None), 4);
}

#[test]
fn placement_counted_once_across_pendingnew_then_open() {
    let mut a = OrderActivity::new();
    a.on_order(&update("a", Asset::Btc, Side::Buy, OrderState::PendingNew), T0);
    a.on_order(&update("a", Asset::Btc, Side::Buy, OrderState::Open), T0);
    assert_eq!(a.placed_since(T0, 60_000, None), 1);
    assert_eq!(a.resting(None), 1);
}

#[test]
fn times_are_taken_as_far_as_they_go() {
    let mut a = OrderActivity::new();
    let last = i64::MAX;
    a.on_order(&update("a", Asset::Btc, Side::Buy, OrderState::PendingCancel), 0);
    a.on_order(&update("a", Asset::Btc, Side::Buy, OrderState::Canceled), last);
    assert_eq!(a.median_time_to_cancel_ms(None), Some(last));
    assert_eq!(a.cancelled_since(last, 60_000, None), 1);
    // The middle of two long durations is theirs, though their sum is beyond the type.
    a.on_order(&update("b", Asset::Btc, Side::Buy, OrderState::PendingCancel), 2);
    a.on_order(&update("b", Asset::Btc, Side::Buy, OrderState::Canceled), last);
    assert_eq!(a.median_time_to_cancel_ms(None), Some(last - 1));
    a.on_fill(&fill(Asset::Btc, last), i64::MIN + 600_000);
    assert_eq!(a.fills_since(i64::MIN + 600_000, 600_000, None), 1);
}

#[test]
fn resting_count_tracks_working_orders() {
    let mut a = OrderActivity::new();
    a.on_order(&update("a", Asset::Btc, Side::Buy, OrderState::Open), T0);
    a.on_order(&update("b", Asset::Btc, Side::Buy, OrderState::Open), T0);
    assert_eq!(a.resting(None), 2);
    a.on_order(&update("a", Asset::Btc, Side::Buy, OrderState::Canceled), T0);
    assert_eq!(a.resting(None), 1);
    assert_eq!(a.cancelled_since(T0, 60_000, None), 1);
}

#[test]
fn time_to_cancel_is_observed_in_live_only() {
    let mut a = OrderActivity::new();
    // Open, then PendingCancel, then Canceled after a delay.
    for (i, delay) in [50_i64, 30, 70].into_iter().enumerate() {
        let id = format!("o{i}");
        a.on_order(&update(&id, Asset::Btc, Side::Buy, OrderState::Open), T0);
        a.on_order(&update(&id, Asset::Btc, Side::Buy, OrderState::PendingCancel), T0 + 1000);
        a.on_order(&update(&id, Asset::Btc, Side::Buy, OrderState::Canceled), T0 + 1000 + delay);
    }
    // Median of [50, 30, 70] = 50.
    assert_eq!(a.median_time_to_cancel_ms(None), Some(50));
}

#[test]
fn p95_time_to_cancel_uses_nearest_rank_and_is_none_in_paper() {
    let mut a = OrderActivity::new();
    // Live round-trips: 20 samples 10..=200ms.
    for i in 1..=20_i64 {
        let id = format!("o{i}");
        a.on_order(&update(&id, Asset::Btc, Side::Buy, OrderState::Open), T0);
        a.on_order(&update(&id, Asset::Btc, Side::Buy, OrderState::PendingCancel), T0 + 1000);
        a.on_order(&update(&id, Asset::Btc, Side::Buy, OrderState::Canceled), T0 + 1000 + i * 10);
    }
    // ceil(0.95*20)=19, so the 19th value.
    assert_eq!(a.p95_time_to_cancel_ms(None), Some(190));
    // Without PendingCancel there is nothing to measure.
    let mut p = OrderActivity::new();
    p.on_order(&update("o", Asset::Btc, Side::Buy, OrderState::Open), T0);
    p.on_order(&update("o", Asset::Btc, Side::Buy, OrderState::Canceled), T0 + 500);
    assert_eq!(p.p95_time_to_cancel_ms(None), None);
}

#[test]
fn paper_has_no_pending_cancel_so_time_to_cancel_is_none() {
    let mut a = OrderActivity::new();
    a.on_order(&update("o", Asset::Btc, Side::Buy, OrderState::Open), T0);
    a.on_order(&update("o", Asset::Btc, Side::Buy, OrderState::Canceled), T0 + 500);
    assert_eq!(a.median_time_to_cancel_ms(None), None);
}

#[test]
fn time_to_replace_pairs_a_cancel_with_the_next_placement_on_the_slot() {
    let mut a = OrderActivity::new();
    // Slot (BTC window, Buy): cancel then replace 100ms later.
    a.on_order(&update("a", Asset::Btc, Side::Buy, OrderState::Open), T0);
    a.on_order(&update("a", Asset::Btc, Side::Buy, OrderState::Canceled), T0 + 1000);
    a.on_order(&update("b", Asset::Btc, Side::Buy, OrderState::Open), T0 + 1100);
    // A second slot: cancel then replace 300ms later.
    a.on_order(&update("c", Asset::Btc, Side::Sell, OrderState::Open), T0);
    a.on_order(&update("c", Asset::Btc, Side::Sell, OrderState::Canceled), T0 + 2000);
    a.on_order(&update("d", Asset::Btc, Side::Sell, OrderState::Open), T0 + 2300);
    // Median of [100, 300] = 200.
    assert_eq!(a.median_time_to_replace_ms(None), Some(200));
}

#[test]
fn replace_pairing_respects_the_cap() {
    let mut a = OrderActivity::new();
    a.on_order(&update("a", Asset::Btc, Side::Buy, OrderState::Open), T0);
    a.on_order(&update("a", Asset::Btc, Side::Buy, OrderState::Canceled), T0 + 1000);
    // Replacement 10s later, beyond the 5s cap: no replace.
    a.on_order(&update("b", Asset::Btc, Side::Buy, OrderState::Open), T0 + 11_000);
    assert_eq!(a.median_time_to_replace_ms(None), None);
}

#[test]
fn replace_pairing_takes_the_cap_itself() {
    let mut a = OrderActivity::new();
    a.on_order(&update("a", Asset::Btc, Side::Buy, OrderState::Open), T0);
    a.on_order(&update("a", Asset::Btc, Side::Buy, OrderState::Canceled), T0 + 1000);
    a.on_order(&update("b", Asset::Btc, Side::Buy, OrderState::Open), T0 + 6000);
    assert_eq!(a.median_time_to_replace_ms(None), Some(5000));
}

#[test]
fn queries_filter_by_series() {
    let mut a = OrderActivity::new();
    a.on_order(&update("a", Asset::Btc, Side::Buy, OrderState::Open), T0);
    a.on_order(&update("b", Asset::Eth, Side::Buy, OrderState::Open), T0);
    a.on_fill(&fill(Asset::Btc, T0), T0);
    assert_eq!(a.placed_since(T0, 60_000, Some(series(Asset::Btc))), 1);
    assert_eq!(a.placed_since(T0, 60_000, Some(series(Asset::Eth))), 1);
    assert_eq!(a.placed_since(T0, 60_000, None), 2);
    assert_eq!(a.resting(Some(series(Asset::Btc))), 1);
    assert_eq!(a.fills_since(T0, 60_000, Some(series(Asset::Btc))), 1);
    assert_eq!(a.fills_since(T0, 60_000, Some(series(Asset::Eth))), 0);
}

#[test]
fn day_is_utc_midnight_bucket() {
    // 2026-06-15T00:00:00Z = 1_781_481_600_000 ms = day 20619.
    let midnight = 1_781_481_600_000;
    let key = DayKey::from_ts(midnight);
    assert_eq!(key.as_days(), 20_619);
    assert_eq!(key.start_ms(), midnight);
}

#[test]
fn instants_within_a_day_share_a_key() {
    let start = 1_781_481_600_000;
    let just_before_next = start + MS_PER_DAY - 1;
    assert_eq!(DayKey::from_ts(start), DayKey::from_ts(just_before_next));
    // One ms later rolls to the next day.
    assert_ne!(DayKey::from_ts(start), DayKey::from_ts(start + MS_PER_DAY));
}

#[test]
fn pre_epoch_stays_total() {
    // -1 ms is the last ms of day -1, never panics or wraps oddly.
    assert_eq!(DayKey::from_ts(-1).as_days(), -1);
    assert_eq!(DayKey::from_ts(0).as_days(), 0);
    assert_eq!(DayKey::from_ts(-MS_PER_DAY).as_days(), -1);
    assert_eq!(DayKey::from_ts(-MS_PER_DAY - 1).as_days(), -2);
}

#[test]
fn each_update_counts_once() {
    let mut a = OrderActivity::new();
    let now = T0 + 1_000_000;
    a.on_order(&update("a", Asset::Btc, Side::Buy, OrderState::Open), now);
    // A second update of a working order places nothing.
    a.on_order(&update("a", Asset::Btc, Side::Buy, OrderState::PendingCancel), now);
    a.on_order(&update("b", Asset::Eth, Side::Buy, OrderState::Open), now);
    a.on_order(&update("b", Asset::Eth, Side::Buy, OrderState::Canceled), now);
    a.on_fill(&fill(Asset::Btc, now), now);
    assert_eq!(a.placed_since(now, 60_000, None), 2);
    assert_eq!(a.placed_since(now, 60_000, Some(series(Asset::Btc))), 1);
    assert_eq!(a.cancelled_since(now, 60_000, None), 1);
    assert_eq!(a.fills_since(now, 60_000, None), 1);
    assert_eq!(a.resting(None), 1);
    assert_eq!(a.resting(Some(series(Asset::Eth))), 0);
}
