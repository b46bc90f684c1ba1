//! Per-window PnL attribution that reconciles to the ledger.
//!
//! A settled window's realized PnL is split into the locked-pair edge, the unmatched excess
//! marked to settlement, the intra-window remainder and the taker fees; estimated maker rebates
//! come on top. The split is anchored on the held-inventory mark, so that the four trading
//! buckets add up to the ledger's figure.

use vstd::prelude::*;

use crate::decimal::{
    abs_int, is_decimal, is_near, max_value, Amount, MAX_MANTISSA, MAX_SCALE, SAFE_UNITS, UNIT,
};
use crate::types::{Fill, Liquidity, Mode, Outcome, SettlementSummary, SideInventory, WindowId};

verus! {

/// The fee that a taker would pay on a fill: `size * rate * price * (1 - price)`.
pub open spec fn taker_fee_spec(size: Amount, rate: Amount, price: Amount, one: Amount) -> Amount {
    Amount::product_of(
        Amount::product_of(Amount::product_of(size, rate), price),
        Amount::difference_of(one, price),
    )
}

/// One unit.
pub open spec fn one_unit() -> Amount {
    Amount::of_parts((1, 0))
}

/// Whether a fill has a price within `[0, 1]`, and its size, and its size at the fee rate, keep the
/// fee within the decimal type.
pub open spec fn plausible(size: Amount, rate: Amount, price: Amount) -> bool {
    &&& 0 <= price.value() <= UNIT
    &&& size.within(SAFE_UNITS as int)
    &&& abs_int(size.value() * rate.value()) <= SAFE_UNITS * UNIT * UNIT
}

/// A rounded product is within a unit of the bound that the exact one keeps.
proof fn lemma_product_bound(exact: int, p: int, bound: int)
    requires
        abs_int(exact) <= bound * UNIT,
        abs_int(p * UNIT - exact) < UNIT * UNIT,
    ensures
        abs_int(p) <= bound + UNIT,
{
    assert(-(bound + UNIT) <= p <= bound + UNIT) by (nonlinear_arith)
        requires
            p * UNIT - exact < UNIT * UNIT,
            exact - p * UNIT < UNIT * UNIT,
            -(bound * UNIT) <= exact <= bound * UNIT,
    ;
}

/// Multiplying by a factor of at most one leaves the magnitude within a unit of what it was.
proof fn lemma_small_factor(a: int, b: int, p: int, bound: int)
    requires
        0 <= b <= UNIT,
        abs_int(a) <= bound,
        0 <= bound,
        abs_int(p * UNIT - a * b) < UNIT * UNIT,
    ensures
        abs_int(a * b) <= bound * UNIT,
        abs_int(p) <= bound + UNIT,
{
    assert(abs_int(a * b) <= bound * UNIT) by (nonlinear_arith)
        requires
            0 <= b <= UNIT,
            -bound <= a <= bound,
            0 <= bound,
    ;
    lemma_product_bound(a * b, p, bound);
}

proof fn lemma_product_in_range(a: int, b: int, bound: int)
    requires
        0 <= b <= 2 * UNIT,
        abs_int(a) <= bound,
        0 <= bound,
        2 * bound <= max_value(),
    ensures
        abs_int(a * b) <= max_value() * UNIT,
{
    assert(abs_int(a * b) <= 2 * bound * UNIT) by (nonlinear_arith)
        requires
            0 <= b <= 2 * UNIT,
            -bound <= a <= bound,
            0 <= bound,
    ;
    assert(2 * bound * UNIT <= max_value() * UNIT) by (nonlinear_arith)
        requires
            2 * bound <= max_value(),
    ;
}

/// What a price leaves of one unit is a decimal.
proof fn lemma_rest_is_decimal(price: Amount)
    requires
        price.wf(),
        0 <= price.value() <= UNIT,
    ensures
        is_decimal(UNIT - price.value()),
{
    reveal(is_decimal);
    price.lemma_limits();
    let s = price.s() as nat;
    let low = (MAX_SCALE - s) as nat;
    let m = price.m();
    let k = crate::decimal::pow10(low);
    let l = crate::decimal::pow10(s);
    crate::decimal::lemma_pow10_adds(s, low);
    crate::decimal::lemma_pow10_unit();
    crate::decimal::lemma_pow10_positive(low);
    crate::decimal::lemma_pow10_positive(s);
    price.lemma_value();
    assert(0 <= l - m <= UNIT && (l - m) * k == UNIT - m * k) by (nonlinear_arith)
        requires
            l * k == UNIT,
            0 <= m * k <= UNIT,
            k >= 1,
            l >= 1,
    ;
    assert(crate::decimal::steps(l - m, s as int) == UNIT - price.value());
}

/// Whether the fee that a taker would pay on a fill is within the decimal type at every step.
pub open spec fn has_fee(size: Amount, rate: Amount, price: Amount) -> bool {
    let at_rate = Amount::product_of(size, rate);
    let at_price = Amount::product_of(at_rate, price);
    &&& Amount::has_product(size, rate)
    &&& Amount::has_product(at_rate, price)
    &&& Amount::has_difference(one_unit(), price)
    &&& Amount::has_product(at_price, Amount::difference_of(one_unit(), price))
}

/// The fee that a taker would pay on a fill, `None` where a step of it is beyond the largest
/// decimal.
pub fn checked_taker_fee(size: &Amount, rate: &Amount, price: &Amount) -> (r: Option<Amount>)
    ensures
        r is Some <==> has_fee(*size, *rate, *price),
        r matches Some(fee) ==> fee == taker_fee_spec(*size, *rate, *price, one_unit()),
        r matches Some(fee) ==> size.value() == 0 || rate.value() == 0 || price.value() == 0
            || price.value() == UNIT ==> fee.value() == 0,
        plausible(*size, *rate, *price) ==> r is Some && r->0.within(SAFE_UNITS + 4),
{
    let ghost small = plausible(*size, *rate, *price);
    let one = Amount::new(1, 0);
    proof {
        crate::decimal::lemma_pow10_unit();
        Amount::lemma_zero_is_decimal();
        use_type_invariant(price);
        if small {
            lemma_rest_is_decimal(*price);
        }
    }
    let rest = one.checked_minus(price);
    let a = match size.checked_times(rate) {
        Some(a) => a,
        None => return None,
    };
    proof {
        if small {
            lemma_product_bound(size.value() * rate.value(), a.value(), SAFE_UNITS * UNIT);
            lemma_product_in_range(a.value(), price.value(), SAFE_UNITS * UNIT + UNIT);
        }
    }
    let b = match a.checked_times(price) {
        Some(b) => b,
        None => return None,
    };
    let rest = match rest {
        Some(rest) => rest,
        None => return None,
    };
    proof {
        if small {
            lemma_small_factor(a.value(), price.value(), b.value(), SAFE_UNITS * UNIT + UNIT);
            lemma_product_in_range(b.value(), rest.value(), SAFE_UNITS * UNIT + 2 * UNIT);
        }
    }
    let r = b.checked_times(&rest);
    proof {
        if small {
            lemma_small_factor(b.value(), rest.value(), r->0.value(), SAFE_UNITS * UNIT + 2 * UNIT);
        }
    }
    r
}

/// The fee that a taker would pay on a fill.
pub fn taker_fee(size: &Amount, rate: &Amount, price: &Amount) -> (r: Amount)
    requires
        plausible(*size, *rate, *price),
    ensures
        r == taker_fee_spec(*size, *rate, *price, one_unit()),
        r.within(SAFE_UNITS + 4),
{
    checked_taker_fee(size, rate, price).unwrap()
}

/// What the fills of a window add up to, beyond what its settlement says.
#[derive(Clone, Copy, PartialEq, Eq, Structural, Debug)]
pub struct WindowAttrib {
    window: WindowId,
    maker_rebate_base: Amount,
    taker_notional: Amount,
    maker_fills: u64,
    taker_fills: u64,
}

impl View for WindowAttrib {
    type V = WindowAttrib;

    open spec fn view(&self) -> WindowAttrib {
        *self
    }
}

impl WindowAttrib {
    /// The window.
    pub closed spec fn window_spec(self) -> WindowId {
        self.window
    }

    /// The taker fees that the maker fills would have paid, added up.
    pub closed spec fn base(self) -> Amount {
        self.maker_rebate_base
    }

    /// Price times size of the taker fills, added up.
    pub closed spec fn notional(self) -> Amount {
        self.taker_notional
    }

    /// The number of maker fills.
    pub closed spec fn makers(self) -> nat {
        self.maker_fills as nat
    }

    /// The number of taker fills.
    pub closed spec fn takers(self) -> nat {
        self.taker_fills as nat
    }

    /// An accumulator that has seen no fill.
    pub fn new(window: WindowId) -> (r: WindowAttrib)
        ensures
            r == WindowAttrib::fresh(window),
            r.window_spec() == window,
            r.base().value() == 0,
            r.notional().value() == 0,
            r.makers() == 0,
            r.takers() == 0,
    {
        let zero = Amount::new(0, 0);
        assert(0 * crate::decimal::pow10(28) == 0);
        WindowAttrib {
            window,
            maker_rebate_base: zero,
            taker_notional: zero,
            maker_fills: 0,
            taker_fills: 0,
        }
    }

    /// An accumulator that has seen no fill.
    pub closed spec fn fresh(window: WindowId) -> WindowAttrib {
        let zero = Amount::of_parts((0, 0));
        WindowAttrib {
            window,
            maker_rebate_base: zero,
            taker_notional: zero,
            maker_fills: 0,
            taker_fills: 0,
        }
    }

    /// Whether there is room for one more fill.
    pub open spec fn has_room(self) -> bool {
        &&& self.base().within(SAFE_UNITS * 10)
        &&& self.notional().within(SAFE_UNITS * 10)
        &&& self.makers() < u64::MAX
        &&& self.takers() < u64::MAX
    }

    /// The accumulator after one more fill: a maker fill adds the fee that a taker would have
    /// paid on it, a taker fill its notional.
    pub closed spec fn with_fill(self, fill: Fill, fee_rate: Amount) -> WindowAttrib {
        match fill.liquidity {
            Liquidity::Maker => WindowAttrib {
                maker_rebate_base: Amount::sum_of(
                    self.maker_rebate_base,
                    taker_fee_spec(fill.size, fee_rate, fill.price, one_unit()),
                ),
                maker_fills: (self.maker_fills + 1) as u64,
                ..self
            },
            Liquidity::Taker => WindowAttrib {
                taker_notional: Amount::sum_of(
                    self.taker_notional,
                    Amount::product_of(fill.price, fill.size),
                ),
                taker_fills: (self.taker_fills + 1) as u64,
                ..self
            },
        }
    }

    /// Whether a fill can be taken in: the counter and the sum that it adds to have room for it.
    pub open spec fn takes_fill(self, fill: Fill, fee_rate: Amount) -> bool {
        match fill.liquidity {
            Liquidity::Maker => {
                &&& self.makers() < u64::MAX
                &&& has_fee(fill.size, fee_rate, fill.price)
                &&& Amount::has_sum(
                    self.base(),
                    taker_fee_spec(fill.size, fee_rate, fill.price, one_unit()),
                )
            },
            Liquidity::Taker => {
                &&& self.takers() < u64::MAX
                &&& Amount::has_product(fill.price, fill.size)
                &&& Amount::has_sum(self.notional(), Amount::product_of(fill.price, fill.size))
            },
        }
    }

    /// The accumulator after one more fill, `None` where there is no room for it.
    pub fn checked_fill(&self, fill: &Fill, fee_rate: &Amount) -> (r: Option<WindowAttrib>)
        ensures
            r is Some <==> self.takes_fill(*fill, *fee_rate),
            r matches Some(a) ==> a == self.with_fill(*fill, *fee_rate),
            self.has_room() && plausible(fill.size, *fee_rate, fill.price) ==> r is Some,
    {
        match fill.liquidity {
            Liquidity::Maker => {
                if self.maker_fills == u64::MAX {
                    return None;
                }
                match checked_taker_fee(&fill.size, fee_rate, &fill.price) {
                    Some(fee) => match self.maker_rebate_base.checked_plus(&fee) {
                        Some(base) => Some(
                            WindowAttrib {
                                maker_rebate_base: base,
                                maker_fills: self.maker_fills + 1,
                                ..*self
                            },
                        ),
                        None => None,
                    },
                    None => None,
                }
            },
            Liquidity::Taker => {
                if self.taker_fills == u64::MAX {
                    return None;
                }
                let ghost small = plausible(fill.size, *fee_rate, fill.price);
                proof {
                    if small {
                        lemma_product_in_range(
                            fill.size.value(),
                            fill.price.value(),
                            SAFE_UNITS * UNIT,
                        );
                    }
                    assert(fill.price.value() * fill.size.value() == fill.size.value()
                        * fill.price.value()) by (nonlinear_arith);
                }
                match fill.price.checked_times(&fill.size) {
                    Some(notional) => {
                        proof {
                            if small {
                                lemma_small_factor(
                                    fill.size.value(),
                                    fill.price.value(),
                                    notional.value(),
                                    SAFE_UNITS * UNIT,
                                );
                            }
                        }
                        match self.taker_notional.checked_plus(&notional) {
                            Some(sum) => Some(
                                WindowAttrib {
                                    taker_notional: sum,
                                    taker_fills: self.taker_fills + 1,
                                    ..*self
                                },
                            ),
                            None => None,
                        }
                    },
                    None => None,
                }
            },
        }
    }

    /// Takes in one fill.
    pub fn apply_fill(&mut self, fill: &Fill, fee_rate: &Amount)
        requires
            old(self).has_room(),
            plausible(fill.size, *fee_rate, fill.price),
        ensures
            *final(self) == old(self).with_fill(*fill, *fee_rate),
            final(self).window_spec() == old(self).window_spec(),
            fill.liquidity == Liquidity::Maker ==> {
                &&& final(self).base() == Amount::sum_of(
                    old(self).base(),
                    taker_fee_spec(fill.size, *fee_rate, fill.price, one_unit()),
                )
                &&& final(self).makers() == old(self).makers() + 1
                &&& final(self).notional() == old(self).notional()
                &&& final(self).takers() == old(self).takers()
            },
            fill.liquidity == Liquidity::Taker ==> {
                &&& final(self).notional() == Amount::sum_of(
                    old(self).notional(),
                    Amount::product_of(fill.price, fill.size),
                )
                &&& final(self).takers() == old(self).takers() + 1
                &&& final(self).base() == old(self).base()
                &&& final(self).makers() == old(self).makers()
            },
    {
        *self = self.checked_fill(fill, fee_rate).unwrap();
    }

    /// The window.
    pub fn window(&self) -> (r: WindowId)
        ensures
            r == self.window_spec(),
    {
        self.window
    }

    /// The taker fees that the maker fills would have paid, added up.
    pub fn maker_rebate_base(&self) -> (r: Amount)
        ensures
            r == self.base(),
    {
        self.maker_rebate_base
    }

    /// Price times size of the taker fills, added up.
    pub fn taker_notional(&self) -> (r: Amount)
        ensures
            r == self.notional(),
    {
        self.taker_notional
    }

    /// The number of maker fills.
    pub fn maker_fills(&self) -> (r: u64)
        ensures
            r == self.makers(),
    {
        self.maker_fills
    }

    /// The number of taker fills.
    pub fn taker_fills(&self) -> (r: u64)
        ensures
            r == self.takers(),
    {
        self.taker_fills
    }
}

/// A maker fill adds the fee that a taker would have paid on it and counts as one maker fill; a
/// taker fill adds its price times its size and counts as one taker fill. Neither touches what the
/// other adds to.
pub proof fn law_fill_is_booked_by_its_liquidity(a: WindowAttrib, fill: Fill, fee_rate: Amount)
    requires
        a.takes_fill(fill, fee_rate),
    ensures
        ({
            let b = a.with_fill(fill, fee_rate);
            let maker = fill.liquidity == Liquidity::Maker;
            &&& b.window_spec() == a.window_spec()
            &&& b.makers() == a.makers() + (if maker {
                1int
            } else {
                0
            })
            &&& b.takers() == a.takers() + (if maker {
                0int
            } else {
                1
            })
            &&& maker ==> b.notional() == a.notional()
            &&& !maker ==> b.base() == a.base()
            &&& maker ==> b.base() == Amount::sum_of(
                a.base(),
                Amount::product_of(
                    Amount::product_of(Amount::product_of(fill.size, fee_rate), fill.price),
                    Amount::difference_of(Amount::of_parts((1, 0)), fill.price),
                ),
            )
            &&& !maker ==> b.notional() == Amount::sum_of(
                a.notional(),
                Amount::product_of(fill.price, fill.size),
            )
        }),
{
}

/// The PnL of one settled window, split.
#[derive(Clone, Copy, PartialEq, Eq, Structural, Debug)]
pub struct WindowAttribution {
    /// The window.
    pub window: WindowId,
    /// The session's mode.
    pub mode: Mode,
    /// The winner.
    pub outcome: Outcome,
    /// The edge of the matched pairs.
    pub locked_pair_pnl: Amount,
    /// The unmatched shares, marked to settlement.
    pub excess_pnl: Amount,
    /// Realized trading within the window.
    pub settlement_remainder: Amount,
    /// Taker fees paid, as a negative amount.
    pub taker_fees: Amount,
    /// The estimated maker rebate, which the ledger does not hold.
    pub estimated_rebate: Amount,
    /// The ledger's figure.
    pub realized_pnl: Amount,
    /// Maker fills.
    pub maker_fills: u64,
    /// Taker fills.
    pub taker_fills: u64,
    /// Price times size of the taker fills, added up; no part of the split.
    pub taker_notional: Amount,
    /// Matched pairs held at the close.
    pub matched_pairs: Amount,
    /// Pairs merged back during the window.
    pub merged_pairs: Amount,
    /// The magnitude of the unmatched shares.
    pub stranded_shares: Amount,
    /// The combined average cost of a held pair.
    pub pair_cost: Option<Amount>,
    /// The close, Unix milliseconds.
    pub ts_ms: i64,
}

/// The side that the unmatched shares are on.
pub open spec fn excess_side(summary: SettlementSummary) -> SideInventory {
    if summary.excess.value() > 0 {
        summary.up
    } else {
        summary.down
    }
}

/// What the winning shares pay out.
pub open spec fn payout(summary: SettlementSummary) -> Amount {
    match summary.outcome {
        Outcome::Up => summary.up.shares,
        Outcome::Down => summary.down.shares,
    }
}

/// Whether the unmatched shares won.
pub open spec fn excess_won(summary: SettlementSummary) -> bool {
    (summary.excess.value() > 0) == (summary.outcome == Outcome::Up)
}

/// The PnL of the unmatched shares, where there are any: what they pay less what they cost on
/// average.
pub open spec fn excess_of(summary: SettlementSummary, shares: Amount, zero: Amount) -> Amount {
    let avg = match excess_side(summary).avg_price_spec() {
        Some(a) => a,
        None => zero,
    };
    Amount::difference_of(
        if excess_won(summary) {
            shares
        } else {
            zero
        },
        Amount::product_of(shares, avg),
    )
}

/// The PnL of the unmatched shares: zero for a balanced book.
pub open spec fn excess_pnl_of(summary: SettlementSummary) -> Amount {
    if summary.excess.value() == 0 {
        Amount::zero_spec()
    } else {
        excess_of(summary, summary.excess.magnitude_spec(), Amount::zero_spec())
    }
}

/// The unmatched shares pay by the side that they are on. Unmatched Up shares pay a dollar each
/// where Up won and nothing where Down won, less as many shares at Up's average cost; unmatched
/// Down shares pay a dollar each where Down won and nothing where Up won, less as many shares at
/// Down's average cost; a balanced book makes nothing.
pub proof fn law_excess_pays_by_the_side_held(s: SettlementSummary)
    ensures
        s.excess.value() == 0 ==> excess_pnl_of(s) == Amount::zero_spec(),
        s.excess.value() > 0 && s.outcome == Outcome::Up && s.up.avg_price_spec() is Some
            ==> excess_pnl_of(s) == Amount::difference_of(
            s.excess.magnitude_spec(),
            Amount::product_of(s.excess.magnitude_spec(), s.up.avg_price_spec()->0),
        ),
        s.excess.value() > 0 && s.outcome == Outcome::Down && s.up.avg_price_spec() is Some
            ==> excess_pnl_of(s) == Amount::difference_of(
            Amount::zero_spec(),
            Amount::product_of(s.excess.magnitude_spec(), s.up.avg_price_spec()->0),
        ),
        s.excess.value() < 0 && s.outcome == Outcome::Down && s.down.avg_price_spec() is Some
            ==> excess_pnl_of(s) == Amount::difference_of(
            s.excess.magnitude_spec(),
            Amount::product_of(s.excess.magnitude_spec(), s.down.avg_price_spec()->0),
        ),
        s.excess.value() < 0 && s.outcome == Outcome::Up && s.down.avg_price_spec() is Some
            ==> excess_pnl_of(s) == Amount::difference_of(
            Amount::zero_spec(),
            Amount::product_of(s.excess.magnitude_spec(), s.down.avg_price_spec()->0),
        ),
{
}

/// Neither side is favoured: with the two inventories exchanged, the excess on the other side and
/// the other side as the winner, the unmatched shares make the same and as much is paid out.
pub proof fn law_sides_are_treated_alike(a: SettlementSummary, b: SettlementSummary)
    requires
        a.up == b.down,
        a.down == b.up,
        a.outcome != b.outcome,
        a.excess.value() == -b.excess.value(),
        a.excess.magnitude_spec() == b.excess.magnitude_spec(),
    ensures
        excess_pnl_of(a) == excess_pnl_of(b),
        has_excess(a) == has_excess(b),
        payout(a) == payout(b),
{
}

/// Whether the PnL of the unmatched shares is within the decimal type at every step.
pub open spec fn has_excess(summary: SettlementSummary) -> bool {
    summary.excess.value() != 0 ==> {
        let side = excess_side(summary);
        let shares = summary.excess.magnitude_spec();
        let avg = match side.avg_price_spec() {
            Some(a) => a,
            None => Amount::zero_spec(),
        };
        &&& side.shares.value() != 0 ==> side.avg_price_spec() is Some
        &&& Amount::has_product(shares, avg)
        &&& Amount::has_difference(
            if excess_won(summary) {
                shares
            } else {
                Amount::zero_spec()
            },
            Amount::product_of(shares, avg),
        )
    }
}

/// The PnL of the unmatched shares, marked to the resolved outcome and zero for a balanced book;
/// `None` where a step of it is beyond the largest decimal.
pub fn checked_excess_pnl(summary: &SettlementSummary) -> (r: Option<Amount>)
    ensures
        r is Some <==> has_excess(*summary),
        r matches Some(x) ==> x == excess_pnl_of(*summary) && x.wf(),
        r matches Some(x) ==> summary.excess.value() == 0 ==> x.value() == 0,
        r matches Some(x) ==> summary.excess.value() > 0 && summary.up.cost.value() == 0 ==> x.value()
            == (if summary.outcome == Outcome::Up {
            summary.excess.value()
        } else {
            0
        }),
        r matches Some(x) ==> summary.excess.value() < 0 && summary.down.cost.value() == 0
            ==> x.value() == (if summary.outcome == Outcome::Down {
            -summary.excess.value()
        } else {
            0
        }),
        summary.bounded() ==> r is Some && r->0.within(SAFE_UNITS * 3 + 2),
{
    let zero = Amount::zero();
    if summary.excess.is_zero() {
        return Some(zero);
    }
    let up = summary.excess.is_positive();
    let side = if up {
        summary.up
    } else {
        summary.down
    };
    let shares = summary.excess.magnitude();
    let won = up == (summary.outcome == Outcome::Up);
    let avg = match side.avg_price() {
        Some(a) => a,
        None => {
            if !side.shares.is_zero() {
                return None;
            }
            zero
        },
    };
    let payoff = if won {
        shares
    } else {
        zero
    };
    proof {
        if side.shares.value() == 0 {
            assert(shares.value() * avg.value() == 0) by (nonlinear_arith)
                requires
                    avg.value() == 0,
            ;
        } else if summary.bounded() {
            let (part, cost) = (summary.excess.value(), side.cost.value());
            assert(abs_int(shares.value() * cost) == abs_int(part * cost)) by (nonlinear_arith)
                requires
                    shares.value() == abs_int(part),
            ;
            lemma_cost_bound(shares.value(), side.shares.value(), cost, avg.value());
        }
    }
    let cost = match shares.checked_times(&avg) {
        Some(cost) => cost,
        None => return None,
    };
    proof {
        if summary.bounded() {
            lemma_cost_value(shares.value(), avg.value(), cost.value());
        }
    }
    proof {
        payoff.lemma_is_decimal();
    }
    let r = payoff.checked_minus(&cost);
    assert(r is Some ==> r->0 == excess_of(*summary, shares, zero));
    r
}

/// The PnL of the unmatched shares, marked to the resolved outcome; zero for a balanced book.
pub fn excess_inventory_pnl(summary: &SettlementSummary) -> (r: Amount)
    requires
        summary.bounded(),
    ensures
        r == excess_pnl_of(*summary),
        r.wf(),
        r.within(SAFE_UNITS * 3 + 2),
{
    checked_excess_pnl(summary).unwrap()
}

/// The cost of some shares at an average is at most the average's part of it and a unit a share.
proof fn lemma_cost_bound(part: int, shares: int, cost: int, avg: int)
    requires
        0 <= part <= SAFE_UNITS * UNIT,
        shares != 0,
        abs_int(part * cost) <= SAFE_UNITS * UNIT * abs_int(shares),
        abs_int(avg * shares - cost * UNIT) < UNIT * abs_int(shares),
    ensures
        abs_int(part * avg) <= 2 * SAFE_UNITS * UNIT * UNIT,
        abs_int(part * avg) <= max_value() * UNIT,
{
    let top = 2 * SAFE_UNITS * UNIT * UNIT;
    let n = abs_int(shares);
    let off = avg * shares - cost * UNIT;
    let x = part * avg;
    assert(x * shares == part * cost * UNIT + part * off) by (nonlinear_arith)
        requires
            off == avg * shares - cost * UNIT,
            x == part * avg,
    ;
    assert(-(SAFE_UNITS * UNIT * UNIT * n) <= part * off <= SAFE_UNITS * UNIT * UNIT * n)
        by (nonlinear_arith)
        requires
            0 <= part <= SAFE_UNITS * UNIT,
            -(UNIT * n) <= off <= UNIT * n,
            n >= 0,
    ;
    let pc = part * cost;
    assert(-(top * n) <= x * shares <= top * n) by (nonlinear_arith)
        requires
            x * shares == pc * UNIT + part * off,
            -(SAFE_UNITS * UNIT * UNIT * n) <= part * off <= SAFE_UNITS * UNIT * UNIT * n,
            -(SAFE_UNITS * UNIT * n) <= pc <= SAFE_UNITS * UNIT * n,
            top == 2 * SAFE_UNITS * UNIT * UNIT,
    ;
    assert(-top <= x <= top) by (nonlinear_arith)
        requires
            -(top * n) <= x * shares <= top * n,
            n == abs_int(shares),
            shares != 0,
            top >= 0,
    ;
    assert(top <= max_value() * UNIT);
}

proof fn lemma_cost_value(part: int, avg: int, cost: int)
    requires
        abs_int(part * avg) <= 2 * SAFE_UNITS * UNIT * UNIT,
        abs_int(cost * UNIT - part * avg) < UNIT * UNIT,
    ensures
        abs_int(cost) <= 2 * SAFE_UNITS * UNIT + UNIT,
{
    let pa = part * avg;
    assert(-(2 * SAFE_UNITS * UNIT + UNIT) <= cost <= 2 * SAFE_UNITS * UNIT + UNIT)
        by (nonlinear_arith)
        requires
            -(2 * SAFE_UNITS * UNIT * UNIT) <= pa <= 2 * SAFE_UNITS * UNIT * UNIT,
            cost * UNIT - pa < UNIT * UNIT,
            pa - cost * UNIT < UNIT * UNIT,
    ;
}

/// What the held shares make at the close: what the winning ones pay less what all cost.
pub open spec fn held_mark_of(summary: SettlementSummary) -> Amount {
    Amount::difference_of(payout(summary), Amount::sum_of(summary.up.cost, summary.down.cost))
}

/// The shares of the side that won, each of which pays a dollar.
pub open spec fn winning_shares(s: SettlementSummary) -> int {
    if s.outcome == Outcome::Up {
        s.up.shares.value()
    } else {
        s.down.shares.value()
    }
}

/// Whether what the held shares make at the close needs no rounding.
pub open spec fn exact_mark(s: SettlementSummary) -> bool {
    &&& is_decimal(s.up.cost.value() + s.down.cost.value())
    &&& is_decimal(winning_shares(s) - s.up.cost.value() - s.down.cost.value())
}

/// The ledger's figure before the taker fees.
pub open spec fn gross_of(summary: SettlementSummary) -> Amount {
    Amount::sum_of(summary.realized_pnl, summary.fees_paid)
}

/// Whether no step of a split that the buckets rest on is rounded: each gives a number that the
/// decimal type has.
pub open spec fn exact_split(summary: SettlementSummary) -> bool {
    &&& Amount::exact_difference(held_mark_of(summary), excess_pnl_of(summary))
    &&& Amount::exact_sum(summary.realized_pnl, summary.fees_paid)
    &&& Amount::exact_difference(gross_of(summary), held_mark_of(summary))
}

/// The magnitudes of the three figures that a split rounds, added up.
pub open spec fn rounded_volume(summary: SettlementSummary) -> int {
    abs_int(held_mark_of(summary).value() - excess_pnl_of(summary).value())
        + abs_int(summary.realized_pnl.value() + summary.fees_paid.value())
        + abs_int(gross_of(summary).value() - held_mark_of(summary).value())
}

/// The buckets that a split computes from the settlement.
struct Buckets {
    locked: Amount,
    excess: Amount,
    remainder: Amount,
}

/// What the three figures of a split are off by is what the buckets' total is off by.
proof fn lemma_split_error(
    locked: int,
    excess: int,
    remainder: int,
    held: int,
    gross: int,
    realized: int,
    fees: int,
)
    requires
        is_near(locked, held - excess),
        is_near(gross, realized + fees),
        is_near(remainder, gross - held),
    ensures
        abs_int(locked + excess + remainder - fees - realized) * MAX_MANTISSA <= 10 * (abs_int(
            held - excess,
        ) + abs_int(realized + fees) + abs_int(gross - held)),
{
    reveal(is_near);
}

/// Whether the split of a settlement is within the decimal type at every step.
pub open spec fn has_split(summary: SettlementSummary) -> bool {
    &&& Amount::has_sum(summary.up.cost, summary.down.cost)
    &&& Amount::has_difference(
        payout(summary),
        Amount::sum_of(summary.up.cost, summary.down.cost),
    )
    &&& has_excess(summary)
    &&& Amount::has_difference(held_mark_of(summary), excess_pnl_of(summary))
    &&& Amount::has_sum(summary.realized_pnl, summary.fees_paid)
    &&& Amount::has_difference(gross_of(summary), held_mark_of(summary))
}

/// Splits what the held shares make and what the ledger holds beyond it; `None` where a step is
/// beyond the largest decimal.
#[verifier::rlimit(60)]
fn split(summary: &SettlementSummary) -> (r: Option<Buckets>)
    ensures
        r is Some <==> has_split(*summary),
        r matches Some(b) ==> {
            &&& b.locked == Amount::difference_of(held_mark_of(*summary), excess_pnl_of(*summary))
            &&& b.excess == excess_pnl_of(*summary)
            &&& b.remainder == Amount::difference_of(gross_of(*summary), held_mark_of(*summary))
        },
        r matches Some(b) ==> abs_int(
            b.locked.value() + b.excess.value() - (winning_shares(*summary)
                - summary.up.cost.value() - summary.down.cost.value()),
        ) < 3 * UNIT,
        r matches Some(b) ==> exact_split(*summary) && exact_mark(*summary) ==> {
            &&& b.locked.value() + b.excess.value() == winning_shares(*summary)
                - summary.up.cost.value() - summary.down.cost.value()
            &&& b.remainder.value() == summary.realized_pnl.value() + summary.fees_paid.value() - (
            winning_shares(*summary) - summary.up.cost.value() - summary.down.cost.value())
        },
        r matches Some(b) ==> exact_split(*summary) ==> {
            &&& b.locked.value() + b.excess.value() + b.remainder.value()
                - summary.fees_paid.value() == summary.realized_pnl.value()
            &&& is_decimal(b.locked.value() + b.excess.value())
            &&& is_decimal(b.locked.value() + b.excess.value() + b.remainder.value())
        },
        r matches Some(b) ==> abs_int(
            b.locked.value() + b.excess.value() + b.remainder.value() - summary.fees_paid.value()
                - summary.realized_pnl.value(),
        ) * MAX_MANTISSA <= 10 * rounded_volume(*summary),
        summary.bounded() ==> r is Some,
        summary.bounded() ==> r->0.locked.within(SAFE_UNITS * 7) && r->0.excess.within(
            SAFE_UNITS * 7,
        ) && r->0.remainder.within(SAFE_UNITS * 7),
{
    let paid = match summary.outcome {
        Outcome::Up => summary.up.shares,
        Outcome::Down => summary.down.shares,
    };
    let held_mark = match summary.up.cost.checked_plus(&summary.down.cost) {
        Some(held_cost) => match paid.checked_minus(&held_cost) {
            Some(held_mark) => held_mark,
            None => return None,
        },
        None => return None,
    };
    let excess = match checked_excess_pnl(summary) {
        Some(excess) => excess,
        None => return None,
    };
    let locked = match held_mark.checked_minus(&excess) {
        Some(locked) => locked,
        None => return None,
    };
    let gross = match summary.realized_pnl.checked_plus(&summary.fees_paid) {
        Some(gross) => gross,
        None => return None,
    };
    let remainder = match gross.checked_minus(&held_mark) {
        Some(remainder) => remainder,
        None => return None,
    };
    proof {
        held_mark.lemma_is_decimal();
        gross.lemma_is_decimal();
        lemma_split_error(
            locked.value(),
            excess.value(),
            remainder.value(),
            held_mark.value(),
            gross.value(),
            summary.realized_pnl.value(),
            summary.fees_paid.value(),
        );
        if exact_split(*summary) {
            assert(locked.value() + excess.value() == held_mark.value());
            assert(locked.value() + excess.value() + remainder.value() == gross.value());
        }
    }
    Some(Buckets { locked, excess, remainder })
}

impl WindowAttribution {
    /// The four trading buckets, added up exactly.
    pub open spec fn trading_total(self) -> int {
        self.locked_pair_pnl.value() + self.excess_pnl.value() + self.settlement_remainder.value()
            + self.taker_fees.value()
    }

    /// Whether the buckets are within a bound that keeps their sums within the decimal type.
    pub open spec fn bounded(self) -> bool {
        &&& self.locked_pair_pnl.within(SAFE_UNITS * 7)
        &&& self.excess_pnl.within(SAFE_UNITS * 7)
        &&& self.settlement_remainder.within(SAFE_UNITS * 7)
        &&& self.taker_fees.within(SAFE_UNITS * 7)
        &&& self.estimated_rebate.within(SAFE_UNITS * 7)
        &&& self.realized_pnl.within(SAFE_UNITS * 7)
        &&& self.matched_pairs.within(SAFE_UNITS * 7)
        &&& self.merged_pairs.within(SAFE_UNITS * 7)
    }

    /// The split of a settlement: what the held shares make at the close goes to the unmatched
    /// shares and the matched pairs, what the ledger holds beyond that to the remainder.
    pub open spec fn of_summary(
        summary: SettlementSummary,
        mode: Mode,
        maker_rebate_base: Amount,
        rebate_rate: Amount,
        maker_fills: u64,
        taker_fills: u64,
        taker_notional: Amount,
    ) -> WindowAttribution {
        let held_mark = held_mark_of(summary);
        let excess_pnl = excess_pnl_of(summary);
        WindowAttribution {
            window: summary.window,
            mode,
            outcome: summary.outcome,
            locked_pair_pnl: Amount::difference_of(held_mark, excess_pnl),
            excess_pnl,
            settlement_remainder: Amount::difference_of(gross_of(summary), held_mark),
            taker_fees: summary.fees_paid.negated_spec(),
            estimated_rebate: Amount::product_of(rebate_rate, maker_rebate_base),
            realized_pnl: summary.realized_pnl,
            maker_fills,
            taker_fills,
            taker_notional,
            matched_pairs: summary.matched_pairs,
            merged_pairs: summary.merged_pairs,
            stranded_shares: summary.excess.magnitude_spec(),
            pair_cost: summary.pair_cost,
            ts_ms: summary.ts_ms,
        }
    }

    /// Splits a settlement; `None` where a step of the split is beyond the largest decimal.
    pub fn checked_from_summary(
        summary: &SettlementSummary,
        mode: Mode,
        maker_rebate_base: Amount,
        rebate_rate: Amount,
        maker_fills: u64,
        taker_fills: u64,
        taker_notional: Amount,
    ) -> (r: Option<WindowAttribution>)
        ensures
            r is Some <==> has_split(*summary) && Amount::has_product(
                rebate_rate,
                maker_rebate_base,
            ),
            r matches Some(a) ==> a == WindowAttribution::of_summary(
                *summary,
                mode,
                maker_rebate_base,
                rebate_rate,
                maker_fills,
                taker_fills,
                taker_notional,
            ),
            r matches Some(a) ==> a.stranded_shares.value() == abs_int(summary.excess.value())
                && a.taker_fees.value() == -summary.fees_paid.value(),
            r matches Some(a) ==> exact_split(*summary) ==> a.reconciles(),
            r matches Some(a) ==> abs_int(
                a.locked_pair_pnl.value() + a.excess_pnl.value() - (winning_shares(*summary)
                    - summary.up.cost.value() - summary.down.cost.value()),
            ) < 3 * UNIT,
            r matches Some(a) ==> exact_split(*summary) && exact_mark(*summary) ==> {
                &&& a.locked_pair_pnl.value() + a.excess_pnl.value() == winning_shares(*summary)
                    - summary.up.cost.value() - summary.down.cost.value()
                &&& a.settlement_remainder.value() == summary.realized_pnl.value()
                    + summary.fees_paid.value() - (winning_shares(*summary)
                    - summary.up.cost.value() - summary.down.cost.value())
            },
            r matches Some(a) ==> abs_int(
                a.estimated_rebate.value() * UNIT - rebate_rate.value() * maker_rebate_base.value(),
            ) < UNIT * UNIT,
            r matches Some(a) ==> a.realized_pnl == summary.realized_pnl && a.window
                == summary.window && a.outcome == summary.outcome && a.mode == mode && a.maker_fills
                == maker_fills && a.taker_fills == taker_fills && a.taker_notional == taker_notional
                && a.matched_pairs == summary.matched_pairs && a.merged_pairs
                == summary.merged_pairs && a.pair_cost == summary.pair_cost && a.ts_ms
                == summary.ts_ms,
            r matches Some(a) ==> abs_int(a.trading_total() - summary.realized_pnl.value())
                * MAX_MANTISSA <= 10 * rounded_volume(*summary),
            summary.bounded() && abs_int(rebate_rate.value() * maker_rebate_base.value())
                <= SAFE_UNITS * 6 * UNIT * UNIT ==> r is Some,
            summary.bounded() && abs_int(rebate_rate.value() * maker_rebate_base.value())
                <= SAFE_UNITS * 6 * UNIT * UNIT && summary.matched_pairs.within(SAFE_UNITS * 7)
                && summary.merged_pairs.within(SAFE_UNITS * 7) ==> r->0.bounded(),
    {
        let parts = match split(summary) {
            Some(parts) => parts,
            None => return None,
        };
        let taker_fees = summary.fees_paid.negated();
        let estimated_rebate = match rebate_rate.checked_times(&maker_rebate_base) {
            Some(rebate) => rebate,
            None => return None,
        };
        proof {
            let exact = rebate_rate.value() * maker_rebate_base.value();
            if abs_int(exact) <= SAFE_UNITS * 6 * UNIT * UNIT {
                lemma_product_bound(exact, estimated_rebate.value(), SAFE_UNITS * 6 * UNIT);
            }
        }
        Some(
            WindowAttribution {
                window: summary.window,
                mode,
                outcome: summary.outcome,
                locked_pair_pnl: parts.locked,
                excess_pnl: parts.excess,
                settlement_remainder: parts.remainder,
                taker_fees,
                estimated_rebate,
                realized_pnl: summary.realized_pnl,
                maker_fills,
                taker_fills,
                taker_notional,
                matched_pairs: summary.matched_pairs,
                merged_pairs: summary.merged_pairs,
                stranded_shares: summary.excess.magnitude(),
                pair_cost: summary.pair_cost,
                ts_ms: summary.ts_ms,
            },
        )
    }

    /// Splits a settlement.
    pub fn from_summary(
        summary: &SettlementSummary,
        mode: Mode,
        maker_rebate_base: Amount,
        rebate_rate: Amount,
        maker_fills: u64,
        taker_fills: u64,
        taker_notional: Amount,
    ) -> (r: WindowAttribution)
        requires
            summary.bounded(),
            abs_int(rebate_rate.value() * maker_rebate_base.value()) <= SAFE_UNITS * 6 * UNIT
                * UNIT,
        ensures
            r == WindowAttribution::of_summary(
                *summary,
                mode,
                maker_rebate_base,
                rebate_rate,
                maker_fills,
                taker_fills,
                taker_notional,
            ),
            r.stranded_shares.value() == abs_int(summary.excess.value()),
            r.taker_fees.value() == -summary.fees_paid.value(),
            exact_split(*summary) ==> r.reconciles(),
            abs_int(r.trading_total() - summary.realized_pnl.value())
                * MAX_MANTISSA <= 10 * rounded_volume(*summary),
            summary.matched_pairs.within(SAFE_UNITS * 7) && summary.merged_pairs.within(
                SAFE_UNITS * 7,
            ) ==> r.bounded(),
    {
        WindowAttribution::checked_from_summary(
            summary,
            mode,
            maker_rebate_base,
            rebate_rate,
            maker_fills,
            taker_fills,
            taker_notional,
        ).unwrap()
    }

    /// Whether the four trading buckets add up within the decimal type: with no rounding on the way,
    /// or with room for it.
    pub open spec fn adds_up(self) -> bool {
        let (l, e) = (self.locked_pair_pnl.value(), self.excess_pnl.value());
        let r = self.settlement_remainder.value();
        ||| self.reconciles()
        ||| abs_int(l + e) <= max_value() && abs_int(l + e + r) + UNIT <= max_value() && abs_int(
            self.trading_total(),
        ) + 2 * UNIT <= max_value()
    }

    /// The four trading buckets, added up: the ledger's figure.
    pub fn trading_sum(&self) -> (r: Amount)
        requires
            self.adds_up(),
        ensures
            r == self.trading_sum_spec(),
            abs_int(r.value() - self.trading_total()) < 3 * UNIT,
            self.reconciles() ==> r == self.realized_pnl,
    {
        proof {
            use_type_invariant(&self.realized_pnl);
            self.realized_pnl.lemma_is_decimal();
            if self.reconciles() {
                crate::decimal::lemma_decimal_limits(
                    self.locked_pair_pnl.value() + self.excess_pnl.value(),
                );
                crate::decimal::lemma_decimal_limits(
                    self.locked_pair_pnl.value() + self.excess_pnl.value()
                        + self.settlement_remainder.value(),
                );
                self.realized_pnl.lemma_limits();
            }
        }
        let a = self.locked_pair_pnl.plus(&self.excess_pnl);
        let b = a.plus(&self.settlement_remainder);
        let r = b.plus(&self.taker_fees);
        proof {
            if self.reconciles() {
                Amount::lemma_value_unique(r, self.realized_pnl);
            }
        }
        r
    }

    /// The decimal sum of the four trading buckets.
    pub open spec fn trading_sum_spec(self) -> Amount {
        Amount::sum_of(
            Amount::sum_of(
                Amount::sum_of(self.locked_pair_pnl, self.excess_pnl),
                self.settlement_remainder,
            ),
            self.taker_fees,
        )
    }

    /// Whether the four trading buckets add up to the ledger's figure, with no rounding on the
    /// way.
    pub open spec fn reconciles(self) -> bool {
        &&& self.trading_total() == self.realized_pnl.value()
        &&& Amount::exact_sum(self.locked_pair_pnl, self.excess_pnl)
        &&& is_decimal(
            self.locked_pair_pnl.value() + self.excess_pnl.value()
                + self.settlement_remainder.value(),
        )
    }

    /// All five buckets, added up.
    pub fn bucket_sum(&self) -> (r: Amount)
        requires
            self.adds_up(),
            abs_int(self.trading_total() + self.estimated_rebate.value()) + (
            if self.reconciles() {
                0int
            } else {
                3 * UNIT
            }) <= max_value(),
        ensures
            r == Amount::sum_of(self.trading_sum_spec(), self.estimated_rebate),
            self.reconciles() ==> r == self.comprehensive_spec(),
            self.reconciles() ==> crate::decimal::is_rounded(
                r.value(),
                self.realized_pnl.value() + self.estimated_rebate.value(),
            ),
    {
        self.trading_sum().plus(&self.estimated_rebate)
    }

    /// The ledger's figure and the estimated rebate.
    pub open spec fn comprehensive_spec(self) -> Amount {
        Amount::sum_of(self.realized_pnl, self.estimated_rebate)
    }

    /// The ledger's figure and the estimated rebate.
    pub fn comprehensive_pnl(&self) -> (r: Amount)
        requires
            abs_int(self.realized_pnl.value() + self.estimated_rebate.value()) <= max_value(),
        ensures
            r == self.comprehensive_spec(),
            crate::decimal::is_rounded(
                r.value(),
                self.realized_pnl.value() + self.estimated_rebate.value(),
            ),
    {
        self.realized_pnl.plus(&self.estimated_rebate)
    }

    /// The excess and the remainder.
    pub fn inventory_pnl(&self) -> (r: Amount)
        requires
            abs_int(self.excess_pnl.value() + self.settlement_remainder.value()) <= max_value(),
        ensures
            r == Amount::sum_of(self.excess_pnl, self.settlement_remainder),
            abs_int(r.value() - self.excess_pnl.value() - self.settlement_remainder.value()) < UNIT,
            Amount::exact_sum(self.excess_pnl, self.settlement_remainder) ==> r.value()
                == self.excess_pnl.value() + self.settlement_remainder.value(),
    {
        self.excess_pnl.plus(&self.settlement_remainder)
    }

    /// Profit from completed pairs.
    pub fn completed_pair_pnl(&self) -> (r: Amount)
        ensures
            r == self.locked_pair_pnl,
    {
        self.locked_pair_pnl
    }

    /// Profit or loss from unmatched shares, net of the taker fees.
    pub fn stuck_leg_pnl(&self) -> (r: Amount)
        requires
            abs_int(self.excess_pnl.value() + self.settlement_remainder.value()) <= max_value(),
            abs_int(
                self.excess_pnl.value() + self.settlement_remainder.value()
                    + self.taker_fees.value(),
            ) + UNIT <= max_value(),
        ensures
            r == Amount::sum_of(
                Amount::sum_of(self.excess_pnl, self.settlement_remainder),
                self.taker_fees,
            ),
            Amount::exact_sum(self.excess_pnl, self.settlement_remainder) && is_decimal(
                self.excess_pnl.value() + self.settlement_remainder.value()
                    + self.taker_fees.value(),
            ) ==> self.locked_pair_pnl.value() + r.value() == self.trading_total() && (
            self.reconciles() ==> self.locked_pair_pnl.value() + r.value()
                == self.realized_pnl.value()),
    {
        let a = self.inventory_pnl();
        a.plus(&self.taker_fees)
    }

    /// Pairs held and pairs merged.
    pub fn pairs_completed(&self) -> (r: Amount)
        requires
            abs_int(self.matched_pairs.value() + self.merged_pairs.value()) <= max_value(),
        ensures
            r == Amount::sum_of(self.matched_pairs, self.merged_pairs),
    {
        self.matched_pairs.plus(&self.merged_pairs)
    }

    /// Whether the ledger's figure is above zero.
    pub fn is_profitable(&self) -> (r: bool)
        ensures
            r == (self.realized_pnl.value() > 0),
    {
        self.realized_pnl.is_positive()
    }
}

} // verus!
