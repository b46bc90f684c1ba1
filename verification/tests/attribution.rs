//! The split of a window's profit or loss.

use rust_decimal::Decimal;

use updown_bot::attribution::{excess_inventory_pnl, taker_fee, WindowAttrib, WindowAttribution};
use updown_bot::decimal::Amount;
use updown_bot::types::{
    Asset, Fill, Liquidity, Mode, Outcome, Series, SettlementSummary, Side, SideInventory,
    WindowDuration, WindowId,
};

const OPEN_MS: i64 = 1_781_000_000_000;
const CLOSE_MS: i64 = OPEN_MS + 300_000;

fn dec(text: &str) -> Amount {
    Amount::parse(text).unwrap()
}

fn amount(d: Decimal) -> Amount {
    dec(&d.to_string())
}

fn decimal(a: Amount) -> Decimal {
    Decimal::from_i128_with_scale(a.mantissa(), a.scale())
}

fn window() -> WindowId {
    WindowId {
        series: Series { asset: Asset::Btc, duration: WindowDuration::M5 },
        open_ms: OPEN_MS,
    }
}

fn side_inv(shares: &str, cost: &str) -> SideInventory {
    SideInventory { shares: dec(shares), cost: dec(cost) }
}

fn fill(outcome: Outcome, side: Side, price: &str, size: &str, liquidity: Liquidity) -> Fill {
    Fill {
        window: window(),
        outcome,
        side,
        price: dec(price),
        size: dec(size),
        liquidity,
        fee: if liquidity == Liquidity::Taker {
            taker_fee(&dec(size), &dec("0.07"), &dec(price))
        } else {
            Amount::zero()
        },
        ts_venue_ms: OPEN_MS + 100,
    }
}

fn close(
    outcome: Outcome,
    up: SideInventory,
    down: SideInventory,
    fees: &str,
    realized: &str,
) -> SettlementSummary {
    SettlementSummary::close(
        window(),
        outcome,
        up,
        down,
        Amount::zero(),
        dec(fees),
        dec(realized),
        CLOSE_MS,
    )
}

fn split(summary: &SettlementSummary) -> WindowAttribution {
    WindowAttribution::from_summary(
        summary,
        Mode::Paper,
        Amount::zero(),
        dec("0.2"),
        0,
        0,
        Amount::zero(),
    )
}

// ---- buy-only, balanced book: remainder is exactly zero ----------------------

#[test]
fn balanced_buy_only_remainder_zero_and_sums_to_realized() {
    // BUY 100 Up @ 0.48 + BUY 100 Down @ 0.49 (makers). Resolve Up.
    // cash = -97, payout = 100, realized = 3. pair_cost 0.97, locked = 3.
    let summary = close(Outcome::Up, side_inv("100", "48"), side_inv("100", "49"), "0", "3");
    let a = WindowAttribution::from_summary(
        &summary,
        Mode::Paper,
        Amount::zero(),
        dec("0.2"),
        2,
        0,
        Amount::zero(),
    );
    assert_eq!(a.locked_pair_pnl, dec("3"));
    assert_eq!(a.excess_pnl, Amount::zero());
    assert_eq!(a.settlement_remainder, Amount::zero());
    assert_eq!(a.taker_fees, Amount::zero());
    assert_eq!(a.trading_sum(), dec("3"));
    assert_eq!(a.trading_sum(), a.realized_pnl);
    assert_eq!(a.maker_fills, 2);
    assert_eq!(a.pair_cost, Some(dec("0.97")));
    assert!(a.is_profitable());
}

// ---- excess inventory, marked to the winning outcome -------------------------

#[test]
fn up_excess_wins_pays_out() {
    // 150 Up @ 0.40 (cost 60), 100 Down @ 0.50 (cost 50). 50 Up excess @ 0.40.
    // Resolve Up: payout 150, held_cost 110, held_mark 40.
    // excess = 50 - 50*0.40 = 30. locked = 40 - 30 = 10.
    let summary = close(Outcome::Up, side_inv("150", "60"), side_inv("100", "50"), "0", "40");
    let a = split(&summary);
    assert_eq!(a.excess_pnl, dec("30"));
    assert_eq!(excess_inventory_pnl(&summary), dec("30"));
    assert_eq!(a.locked_pair_pnl, dec("10"));
    assert_eq!(a.settlement_remainder, Amount::zero());
    assert_eq!(a.trading_sum(), a.realized_pnl);
}

#[test]
fn up_excess_loses_costs_us() {
    // Same book, resolve Down: payout 100, held_cost 110, held_mark -10.
    // excess (Up loses) = 0 - 50*0.40 = -20. locked = -10 - (-20) = 10.
    let summary = close(Outcome::Down, side_inv("150", "60"), side_inv("100", "50"), "0", "-10");
    let a = split(&summary);
    assert_eq!(a.excess_pnl, dec("-20"));
    assert_eq!(a.locked_pair_pnl, dec("10"));
    assert_eq!(a.settlement_remainder, Amount::zero());
    assert_eq!(a.trading_sum(), a.realized_pnl);
    assert!(!a.is_profitable());
}

// ---- two-bucket split (the dashboard explainer) ------------------------------

#[test]
fn two_bucket_split_reconciles_to_realized() {
    let summary = close(Outcome::Up, side_inv("150", "60"), side_inv("100", "50"), "0", "40");
    let a = split(&summary);
    assert_eq!(a.completed_pair_pnl(), dec("10"));
    assert_eq!(a.stuck_leg_pnl(), dec("30"));
    // The two buckets sum to the ledger's realized PnL, exactly.
    assert_eq!(a.completed_pair_pnl().plus(&a.stuck_leg_pnl()), a.realized_pnl);
    // Stranded shares: 50 Up excess. Matched pairs: min(150,100)=100.
    assert_eq!(a.stranded_shares, dec("50"));
    assert_eq!(a.matched_pairs, dec("100"));
    assert_eq!(a.pairs_completed(), dec("100"));
}

#[test]
fn two_bucket_split_folds_taker_fee_into_stuck_legs() {
    // One taker BUY 100 Up @ 0.50, fee 1.75; resolve Up. realized 48.25.
    // All 100 are Up excess (no Down), so they are "stuck" until settlement.
    let summary = close(Outcome::Up, side_inv("100", "50"), side_inv("0", "0"), "1.75", "48.25");
    let a = WindowAttribution::from_summary(
        &summary,
        Mode::Paper,
        Amount::zero(),
        dec("0.2"),
        0,
        1,
        dec("50"),
    );
    // No matched pairs, so no completed-pair edge; everything is the stuck leg
    // net of the fee. The two buckets still sum to realized exactly.
    assert_eq!(a.completed_pair_pnl(), Amount::zero());
    assert_eq!(a.stuck_leg_pnl(), a.inventory_pnl().plus(&dec("-1.75")));
    assert_eq!(a.completed_pair_pnl().plus(&a.stuck_leg_pnl()), a.realized_pnl);
}

// ---- fees and rebate ---------------------------------------------------------

#[test]
fn taker_fee_is_a_negative_bucket() {
    // One taker BUY 100 Up @ 0.50: fee = 100*0.07*0.50*0.50 = 1.75.
    let f = fill(Outcome::Up, Side::Buy, "0.50", "100", Liquidity::Taker);
    assert_eq!(f.fee, dec("1.75"));
    // Resolve Up: payout 100, held_cost 50, held_mark 50.
    // cash = -50 - 1.75 = -51.75, realized = 48.25.
    let summary = close(Outcome::Up, side_inv("100", "50"), side_inv("0", "0"), "1.75", "48.25");
    // Taker notional = 100 * 0.50 = $50 (the budget-usage numerator).
    let a = WindowAttribution::from_summary(
        &summary,
        Mode::Paper,
        Amount::zero(),
        dec("0.2"),
        0,
        1,
        dec("50"),
    );
    assert_eq!(a.taker_fees, dec("-1.75"));
    assert_eq!(a.estimated_rebate, Amount::zero()); // taker fill earns no rebate base
    assert_eq!(a.settlement_remainder, Amount::zero());
    assert_eq!(a.taker_notional, dec("50"));
    // The taker notional is NOT a PnL bucket: the ledger identity holds.
    assert_eq!(a.trading_sum(), a.realized_pnl);
    assert_eq!(a.bucket_sum(), a.comprehensive_pnl());
}

#[test]
fn maker_rebate_base_uses_fee_formula_over_maker_volume() {
    // Two maker fills accumulate the rebate base at the reference points.
    let mut attrib = WindowAttrib::new(window());
    attrib.apply_fill(
        &fill(Outcome::Up, Side::Buy, "0.50", "100", Liquidity::Maker),
        &dec("0.07"),
    );
    attrib.apply_fill(
        &fill(Outcome::Down, Side::Buy, "0.25", "100", Liquidity::Maker),
        &dec("0.07"),
    );
    // $1.75 @ 0.50 + $1.3125 @ 0.25 = $3.0625 base.
    assert_eq!(attrib.maker_rebate_base(), dec("3.0625"));
    assert_eq!(attrib.maker_fills(), 2);
    assert_eq!(attrib.window(), window());
    // Rebate estimate = 0.20 * base.
    let summary = close(Outcome::Up, side_inv("100", "50"), side_inv("100", "25"), "0", "25");
    let a = WindowAttribution::from_summary(
        &summary,
        Mode::Paper,
        attrib.maker_rebate_base(),
        dec("0.2"),
        attrib.maker_fills(),
        attrib.taker_fills(),
        attrib.taker_notional(),
    );
    assert_eq!(a.estimated_rebate, dec("0.6125"));
    // Both fills were makers, so no taker notional was accumulated.
    assert_eq!(a.taker_notional, Amount::zero());
    // Rebate is NOT in the 4-bucket ledger identity...
    assert_eq!(a.trading_sum(), a.realized_pnl);
    // ...but the 5-bucket sum reaches the comprehensive (rebate-inclusive) PnL.
    assert_eq!(a.bucket_sum(), a.comprehensive_pnl());
    assert_eq!(a.comprehensive_pnl(), a.realized_pnl.plus(&dec("0.6125")));
    // The two buckets plus the estimated rebate reconcile to the comprehensive total exactly.
    assert_eq!(
        a.completed_pair_pnl().plus(&a.stuck_leg_pnl()).plus(&a.estimated_rebate),
        a.comprehensive_pnl()
    );
}

#[test]
fn taker_notional_accumulates_on_taker_fills_only() {
    let mut attrib = WindowAttrib::new(window());
    // One maker (no notional contribution) + two takers.
    let rate = dec("0.07");
    attrib.apply_fill(&fill(Outcome::Up, Side::Buy, "0.50", "100", Liquidity::Maker), &rate);
    attrib.apply_fill(&fill(Outcome::Up, Side::Buy, "0.40", "50", Liquidity::Taker), &rate);
    attrib.apply_fill(&fill(Outcome::Down, Side::Buy, "0.60", "20", Liquidity::Taker), &rate);
    // 0.40*50 + 0.60*20 = 20 + 12 = $32; makers contribute $0.
    assert_eq!(attrib.taker_notional(), dec("32"));
    assert_eq!(attrib.taker_fills(), 2);
    assert_eq!(attrib.maker_fills(), 1);
}

// ---- shadow-oracle conservation ----------------------------------------------

/// xorshift64*: deterministic.
struct Rng {
    state: u64,
}

impl Rng {
    fn new(seed: u64) -> Self {
        Self { state: seed | 1 }
    }

    fn next_u64(&mut self) -> u64 {
        let mut x = self.state;
        x ^= x >> 12;
        x ^= x << 25;
        x ^= x >> 27;
        self.state = x;
        x.wrapping_mul(0x2545_F491_4F6C_DD1D)
    }

    fn below(&mut self, n: u64) -> u64 {
        self.next_u64() % n
    }
}

/// An independent ledger built only from operation inputs and the formulas. Tracks each side's
/// shares and cost (for the summary), cash, fees, merged pairs, and the realized PnL of shares
/// that left via sell or merge, accumulated as it happens, so the split's remainder can be
/// checked against an independent number rather than its own residual.
#[derive(Default)]
struct Oracle {
    up_shares: Decimal,
    up_cost: Decimal,
    down_shares: Decimal,
    down_cost: Decimal,
    cash: Decimal,
    fees: Decimal,
    merged: Decimal,
    traded_out_pnl: Decimal,
}

impl Oracle {
    fn buy(&mut self, outcome: Outcome, price: Decimal, size: Decimal, fee: Decimal) {
        match outcome {
            Outcome::Up => {
                self.up_shares += size;
                self.up_cost += price * size;
            }
            Outcome::Down => {
                self.down_shares += size;
                self.down_cost += price * size;
            }
        }
        self.cash -= price * size + fee;
        self.fees += fee;
    }

    fn sell(&mut self, outcome: Outcome, price: Decimal, size: Decimal, fee: Decimal) {
        let (shares, cost) = match outcome {
            Outcome::Up => (&mut self.up_shares, &mut self.up_cost),
            Outcome::Down => (&mut self.down_shares, &mut self.down_cost),
        };
        if *shares <= Decimal::ZERO {
            return;
        }
        let avg = *cost / *shares;
        let sold = size.min(*shares);
        let cost_removed = avg * sold;
        let proceeds = price * sold;
        *shares -= sold;
        *cost -= cost_removed;
        self.cash += proceeds - fee;
        self.fees += fee;
        self.traded_out_pnl += proceeds - cost_removed;
    }

    fn merge(&mut self, req: Decimal) {
        let n = req.min(self.up_shares.min(self.down_shares)).max(Decimal::ZERO);
        if n.is_zero() {
            return;
        }
        let avg_up = self.up_cost / self.up_shares;
        let avg_down = self.down_cost / self.down_shares;
        let cost_removed = n * avg_up + n * avg_down;
        self.up_shares -= n;
        self.up_cost -= n * avg_up;
        self.down_shares -= n;
        self.down_cost -= n * avg_down;
        self.cash += n;
        self.merged += n;
        self.traded_out_pnl += n - cost_removed;
    }

    fn realized(&self, winner: Outcome) -> Decimal {
        let win = match winner {
            Outcome::Up => self.up_shares,
            Outcome::Down => self.down_shares,
        };
        self.cash + win
    }

    fn summary(&self, winner: Outcome) -> SettlementSummary {
        SettlementSummary::close(
            window(),
            winner,
            SideInventory { shares: amount(self.up_shares), cost: amount(self.up_cost) },
            SideInventory { shares: amount(self.down_shares), cost: amount(self.down_cost) },
            amount(self.merged),
            amount(self.fees),
            amount(self.realized(winner)),
            CLOSE_MS,
        )
    }
}

#[test]
fn random_sequences_reconcile_to_the_ledger() {
    for seed in 0..8u64 {
        let mut rng = Rng::new(seed.wrapping_mul(0x9E37_79B9_7F4A_7C15) | 1);
        let mut oracle = Oracle::default();

        for _ in 0..300 {
            let op = rng.below(4);
            let outcome = if rng.below(2) == 0 { Outcome::Up } else { Outcome::Down };
            let pd = Decimal::from(rng.below(99) + 1) / Decimal::from(100);
            let taker = rng.below(2) == 0;
            let fee = |size: Decimal| {
                if taker {
                    decimal(taker_fee(&amount(size), &dec("0.07"), &amount(pd)))
                } else {
                    Decimal::ZERO
                }
            };
            match op {
                0 | 1 => {
                    let size = Decimal::from(rng.below(20) + 1);
                    oracle.buy(outcome, pd, size, fee(size));
                }
                2 => {
                    let held = match outcome {
                        Outcome::Up => oracle.up_shares,
                        Outcome::Down => oracle.down_shares,
                    };
                    if held > Decimal::ZERO {
                        let max = u64::try_from(held.trunc()).unwrap_or(1).max(1);
                        let size = Decimal::from(rng.below(max) + 1).min(held);
                        oracle.sell(outcome, pd, size, fee(size));
                    }
                }
                _ => {
                    oracle.merge(Decimal::from(rng.below(20) + 1));
                }
            }
        }

        let winner = if rng.below(2) == 0 { Outcome::Up } else { Outcome::Down };
        let summary = oracle.summary(winner);
        let a = split(&summary);

        // 4-bucket ledger identity: EXACT (telescopes to the ledger number).
        assert_eq!(a.trading_sum(), summary.realized_pnl, "seed {seed}: trading sum");
        // The two-bucket split is the same identity regrouped; another order of additions
        // leaves noise in the 28th digit at most.
        assert_eq!(
            decimal(a.completed_pair_pnl().plus(&a.stuck_leg_pnl())).round_dp(18),
            decimal(summary.realized_pnl).round_dp(18),
            "seed {seed}: two-bucket sum"
        );
        // The remainder IS the independently accumulated departed-share PnL, beyond money
        // precision.
        assert_eq!(
            decimal(a.settlement_remainder).round_dp(18),
            oracle.traded_out_pnl.round_dp(18),
            "seed {seed}: remainder == traded_out_pnl"
        );
        // The held-inventory split (locked + excess) sums to the held mark.
        let held_mark = match winner {
            Outcome::Up => oracle.up_shares,
            Outcome::Down => oracle.down_shares,
        } - (oracle.up_cost + oracle.down_cost);
        assert_eq!(
            decimal(a.locked_pair_pnl.plus(&a.excess_pnl)).round_dp(18),
            held_mark.round_dp(18),
            "seed {seed}: held mark"
        );
    }
}

#[test]
fn an_average_without_end_still_reconciles() {
    // Three Up shares for a dollar: the average does not end, and one share is unmatched.
    let summary = close(Outcome::Up, side_inv("3", "1"), side_inv("2", "1"), "0.25", "0.75");
    let a = split(&summary);
    assert_eq!(a.excess_pnl, dec("0.6666666666666666666666666667"));
    assert_eq!(a.locked_pair_pnl, dec("0.3333333333333333333333333333"));
    assert_eq!(a.trading_sum(), a.realized_pnl);
    assert_eq!(a.bucket_sum(), a.comprehensive_pnl());
}

#[test]
fn a_split_that_needs_thirty_digits_is_off_in_the_last() {
    // The locked pairs' figure has two whole digits and needs 27 places.
    let summary = close(Outcome::Down, side_inv("301", "100"), side_inv("121", "1"), "0", "20");
    let a = split(&summary);
    let off = a.trading_sum().minus(&a.realized_pnl).magnitude();
    assert!(!off.is_zero());
    assert!(off.less(&dec("0.00000000000000000000000001")));
}
