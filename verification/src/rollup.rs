//! Daily and per-series aggregates: what the series-comparison table is made of.
//!
//! Money and counts are added up here. Five-second markouts come in as order keys and are
//! counted into a histogram; their floating-point moments are taken by the caller.

use vstd::prelude::*;

use crate::attribution::WindowAttribution;
use crate::datekey::{DayKey, SeriesDay};
use crate::decimal::{Amount, SAFE_UNITS, UNIT};
use crate::health::AdverseSelectionState;
use crate::sorting::{in_order, is_strict, law_one_order, lemma_every_place};
use crate::table::Table;
use crate::types::{Mode, Series};

verus! {

/// The number of bins of the five-second-markout histogram.
pub const MARKOUT_BIN_COUNT: usize = 17;

/// The inner edges of the histogram, as order keys, from -0.10 to 0.10 and finest about zero.
pub open spec fn bin_edges() -> Seq<i64> {
    seq![
        -4591870180066957722i64,  // -0.10
        -4587366580439587226i64,  // -0.05
        -4584304132692975288i64,  // -0.03
        -4581421828931458171i64,  // -0.02
        -4576918229304087675i64,  // -0.01
        -4572414629676717179i64,  // -0.005
        -4566758108544739836i64,  // -0.002
        -4562254508917369340i64,  // -0.001
        4562254508917369340i64,  // 0.001
        4566758108544739836i64,  // 0.002
        4572414629676717179i64,  // 0.005
        4576918229304087675i64,  // 0.01
        4581421828931458171i64,  // 0.02
        4584304132692975288i64,  // 0.03
        4587366580439587226i64,  // 0.05
        4591870180066957722i64,  // 0.10
    ]
}

/// The number of edges, from the first on, that a markout is at or above.
pub open spec fn bin_from(key: int, k: int) -> int
    decreases bin_edges().len() - k,
{
    if 0 <= k < bin_edges().len() && key >= bin_edges()[k] {
        bin_from(key, k + 1)
    } else {
        k
    }
}

/// The bin of a markout: how many edges it is at or above.
pub open spec fn bin_of(key: int) -> int {
    bin_from(key, 0)
}

/// The inner edges of the histogram.
fn markout_bin_edges() -> (r: Vec<i64>)
    ensures
        r@ == bin_edges(),
{
    let r: Vec<i64> = vec![
        -4591870180066957722i64,
        -4587366580439587226i64,
        -4584304132692975288i64,
        -4581421828931458171i64,
        -4576918229304087675i64,
        -4572414629676717179i64,
        -4566758108544739836i64,
        -4562254508917369340i64,
        4562254508917369340i64,
        4566758108544739836i64,
        4572414629676717179i64,
        4576918229304087675i64,
        4581421828931458171i64,
        4584304132692975288i64,
        4587366580439587226i64,
        4591870180066957722i64,
    ];
    assert(r@ =~= bin_edges());
    r
}

/// The bin of a markout, from its order key.
pub fn markout_bin(key: i64) -> (r: usize)
    ensures
        r == bin_of(key as int),
        r < MARKOUT_BIN_COUNT,
{
    let edges = markout_bin_edges();
    let mut i: usize = 0;
    while i < edges.len() && key >= edges[i]
        invariant
            i <= edges@.len(),
            edges@ == bin_edges(),
            bin_of(key as int) == bin_from(key as int, i as int),
        decreases edges.len() - i,
    {
        i = i + 1;
    }
    i
}

/// The edges rise, so a bin holds exactly the markouts from its lower edge up to its upper one.
pub proof fn law_bin_bounds(key: int)
    ensures
        0 <= bin_of(key) <= 16,
        bin_of(key) > 0 ==> bin_edges()[bin_of(key) - 1] <= key,
        bin_of(key) < 16 ==> key < bin_edges()[bin_of(key)],
{
    lemma_bin_from(key, 0);
}

proof fn lemma_bin_from(key: int, k: int)
    requires
        0 <= k <= 16,
    ensures
        k <= bin_from(key, k) <= 16,
        bin_from(key, k) > k ==> bin_edges()[bin_from(key, k) - 1] <= key,
        bin_from(key, k) < 16 ==> key < bin_edges()[bin_from(key, k)],
    decreases 16 - k,
{
    if k < 16 && key >= bin_edges()[k] {
        lemma_bin_from(key, k + 1);
    }
}

/// Which days a comparison covers.
#[derive(Clone, Copy, PartialEq, Eq, Structural, Debug)]
pub enum ComparisonWindow {
    /// The current UTC day.
    Today,
    /// So many days ending today; none for zero.
    LastDays(u16),
    /// Every day.
    All,
}

impl ComparisonWindow {
    /// Whether a day is covered.
    pub open spec fn contains_spec(self, day: DayKey, today: DayKey) -> bool {
        match self {
            ComparisonWindow::Today => day == today,
            ComparisonWindow::LastDays(n) => today.days() - n < day.days() <= today.days(),
            ComparisonWindow::All => true,
        }
    }

    /// Whether a day is covered.
    pub fn contains(self, day: DayKey, today: DayKey) -> (r: bool)
        requires
            self is LastDays ==> today.days() - self->LastDays_0 >= i64::MIN,
        ensures
            r == self.contains_spec(day, today),
    {
        match self {
            ComparisonWindow::Today => day == today,
            ComparisonWindow::LastDays(n) => n > 0 && day.as_days() <= today.as_days()
                && day.as_days() > today.as_days() - n as i64,
            ComparisonWindow::All => true,
        }
    }
}

/// One day of `LastDays` is today, and none covers nothing.
pub proof fn law_last_days(day: DayKey, today: DayKey)
    ensures
        ComparisonWindow::LastDays(1).contains_spec(day, today)
            == ComparisonWindow::Today.contains_spec(day, today),
        !ComparisonWindow::LastDays(0).contains_spec(day, today),
{
    DayKey::lemma_days_unique(day, today);
}

/// So many last days are that many days, ending today; every day is covered by all, and today
/// alone by today.
pub proof fn law_window_covers_its_days(n: u16, day: DayKey, today: DayKey)
    ensures
        ComparisonWindow::LastDays(n).contains_spec(day, today) <==> exists|back: int|
            0 <= back < n && day.days() == #[trigger] (today.days() - back),
        ComparisonWindow::Today.contains_spec(day, today) <==> day.days() == today.days(),
        ComparisonWindow::All.contains_spec(day, today),
{
    DayKey::lemma_days_unique(day, today);
    if ComparisonWindow::LastDays(n).contains_spec(day, today) {
        let back = today.days() - day.days();
        assert(0 <= back < n && day.days() == today.days() - back);
    }
}

/// The histogram's edges rise and are the mirror images of each other about zero.
pub proof fn law_edges_mirror_about_zero(i: int, j: int)
    requires
        0 <= i < j < 16,
    ensures
        bin_edges().len() == 16,
        bin_edges()[i] < bin_edges()[j],
        bin_edges()[15 - i] == -bin_edges()[i],
        bin_edges()[7] < 0 < bin_edges()[8],
{
}

/// The edges above zero are the keys of 0.001, 0.002, 0.005, 0.01, 0.02, 0.03, 0.05 and 0.1.
pub proof fn law_edges_are_their_readings()
    ensures
        bin_edges().subrange(8, 16) == seq![
            0x3F50624DD2F1A9FCi64,
            0x3F60624DD2F1A9FCi64,
            0x3F747AE147AE147Bi64,
            0x3F847AE147AE147Bi64,
            0x3F947AE147AE147Bi64,
            0x3F9EB851EB851EB8i64,
            0x3FA999999999999Ai64,
            0x3FB999999999999Ai64,
        ],
{
}

/// A column of the comparison table.
#[derive(Clone, Copy, PartialEq, Eq, Structural, Debug)]
pub enum SortColumn {
    /// Net ledger PnL.
    NetPnl,
    /// Ledger PnL per traded window.
    PnlPerWindow,
    /// The share of windows that were profitable.
    FractionProfitable,
    /// Windows traded.
    WindowsTraded,
    /// The average five-second markout.
    AvgMarkout5s,
    /// Taker fees paid.
    FeesPaid,
    /// Estimated maker rebates.
    RebatesEarned,
    /// The locked-pair bucket.
    LockedPairPnl,
    /// Excess and remainder.
    InventoryPnl,
    /// Taker budget used per window.
    TakerBudgetUsed,
    /// Maker fills.
    MakerFills,
    /// Taker fills.
    TakerFills,
    /// Adverse-selection health.
    Health,
}

impl Default for SortColumn {
    fn default() -> (r: SortColumn)
        ensures
            r == SortColumn::NetPnl,
    {
        SortColumn::NetPnl
    }
}

impl SortColumn {
    /// Every column, in display order.
    pub fn all() -> (r: Vec<SortColumn>)
        ensures
            r@ == SortColumn::all_spec(),
    {
        let r = vec![
            SortColumn::NetPnl,
            SortColumn::PnlPerWindow,
            SortColumn::FractionProfitable,
            SortColumn::WindowsTraded,
            SortColumn::AvgMarkout5s,
            SortColumn::FeesPaid,
            SortColumn::RebatesEarned,
            SortColumn::LockedPairPnl,
            SortColumn::InventoryPnl,
            SortColumn::TakerBudgetUsed,
            SortColumn::MakerFills,
            SortColumn::TakerFills,
            SortColumn::Health,
        ];
        assert(r@ =~= SortColumn::all_spec());
        r
    }

    /// Every column, in display order.
    pub open spec fn all_spec() -> Seq<SortColumn> {
        seq![
            SortColumn::NetPnl,
            SortColumn::PnlPerWindow,
            SortColumn::FractionProfitable,
            SortColumn::WindowsTraded,
            SortColumn::AvgMarkout5s,
            SortColumn::FeesPaid,
            SortColumn::RebatesEarned,
            SortColumn::LockedPairPnl,
            SortColumn::InventoryPnl,
            SortColumn::TakerBudgetUsed,
            SortColumn::MakerFills,
            SortColumn::TakerFills,
            SortColumn::Health,
        ]
    }

    /// The column's heading.
    pub open spec fn label_spec(self) -> Seq<char> {
        match self {
            SortColumn::NetPnl => "Net PnL"@,
            SortColumn::PnlPerWindow => "PnL / window"@,
            SortColumn::FractionProfitable => "% profitable"@,
            SortColumn::WindowsTraded => "Windows"@,
            SortColumn::AvgMarkout5s => "Avg 5s markout"@,
            SortColumn::FeesPaid => "Fees paid"@,
            SortColumn::RebatesEarned => "Rebates"@,
            SortColumn::LockedPairPnl => "Locked-pair PnL"@,
            SortColumn::InventoryPnl => "Inventory PnL"@,
            SortColumn::TakerBudgetUsed => "Taker budget used"@,
            SortColumn::MakerFills => "Maker fills"@,
            SortColumn::TakerFills => "Taker fills"@,
            SortColumn::Health => "Health"@,
        }
    }

    /// The column's heading.
    pub fn label(self) -> (r: &'static str)
        ensures
            r@ == self.label_spec(),
    {
        match self {
            SortColumn::NetPnl => "Net PnL",
            SortColumn::PnlPerWindow => "PnL / window",
            SortColumn::FractionProfitable => "% profitable",
            SortColumn::WindowsTraded => "Windows",
            SortColumn::AvgMarkout5s => "Avg 5s markout",
            SortColumn::FeesPaid => "Fees paid",
            SortColumn::RebatesEarned => "Rebates",
            SortColumn::LockedPairPnl => "Locked-pair PnL",
            SortColumn::InventoryPnl => "Inventory PnL",
            SortColumn::TakerBudgetUsed => "Taker budget used",
            SortColumn::MakerFills => "Maker fills",
            SortColumn::TakerFills => "Taker fills",
            SortColumn::Health => "Health",
        }
    }

    /// Whether a larger value is better: not for costs, taker activity and health.
    pub open spec fn higher_is_better_spec(self) -> bool {
        !(self is FeesPaid || self is TakerBudgetUsed || self is TakerFills || self is Health)
    }

    /// Whether a larger value is better: not for costs, taker activity and health.
    pub fn higher_is_better(self) -> (r: bool)
        ensures
            r == self.higher_is_better_spec(),
    {
        match self {
            SortColumn::FeesPaid | SortColumn::TakerBudgetUsed | SortColumn::TakerFills
            | SortColumn::Health => false,
            _ => true,
        }
    }
}

/// Costs, taker activity and alarm ranks are better the smaller they are; everything else is better
/// the larger it is.
pub proof fn law_costs_are_better_small(col: SortColumn)
    ensures
        col == SortColumn::FeesPaid || col == SortColumn::TakerBudgetUsed || col
            == SortColumn::TakerFills || col == SortColumn::Health ==> !col.higher_is_better_spec(),
        col == SortColumn::NetPnl || col == SortColumn::PnlPerWindow || col
            == SortColumn::FractionProfitable || col == SortColumn::WindowsTraded || col
            == SortColumn::AvgMarkout5s || col == SortColumn::RebatesEarned || col
            == SortColumn::LockedPairPnl || col == SortColumn::InventoryPnl || col
            == SortColumn::MakerFills ==> col.higher_is_better_spec(),
{
}

/// Every column is listed, each once.
pub proof fn law_every_column_is_listed(col: SortColumn, i: int, j: int)
    requires
        0 <= i < j < SortColumn::all_spec().len(),
    ensures
        SortColumn::all_spec().contains(col),
        SortColumn::all_spec()[i] != SortColumn::all_spec()[j],
{
    let all = SortColumn::all_spec();
    assert(all.len() == 13);
    assert(all[0] == SortColumn::NetPnl && all[1] == SortColumn::PnlPerWindow && all[2]
        == SortColumn::FractionProfitable && all[3] == SortColumn::WindowsTraded && all[4]
        == SortColumn::AvgMarkout5s && all[5] == SortColumn::FeesPaid && all[6]
        == SortColumn::RebatesEarned && all[7] == SortColumn::LockedPairPnl && all[8]
        == SortColumn::InventoryPnl && all[9] == SortColumn::TakerBudgetUsed && all[10]
        == SortColumn::MakerFills && all[11] == SortColumn::TakerFills && all[12]
        == SortColumn::Health);
}

/// What the windows of a series add up to.
#[derive(Clone, Copy, PartialEq, Eq, Structural, Debug)]
pub struct Totals {
    /// Windows that traded.
    pub windows_traded: u32,
    /// Windows whose ledger PnL was positive.
    pub windows_profitable: u32,
    /// Net ledger PnL.
    pub net_realized: Amount,
    /// The locked-pair bucket.
    pub locked_pair_pnl: Amount,
    /// The excess bucket.
    pub excess_pnl: Amount,
    /// The remainder bucket.
    pub settlement_remainder: Amount,
    /// The taker-fee bucket, at most zero.
    pub taker_fees: Amount,
    /// Estimated maker rebates.
    pub estimated_rebate: Amount,
    /// Maker fills.
    pub maker_fills: u64,
    /// Taker fills.
    pub taker_fills: u64,
    /// Price times size of taker fills.
    pub taker_notional: Amount,
    /// Five-second markouts counted.
    pub markout_5s_n: u64,
    /// The smallest of them, as an order key; the largest key until there is one.
    pub markout_5s_min: i64,
    /// The largest of them, as an order key; the smallest key until there is one.
    pub markout_5s_max: i64,
}

/// Totals of nothing.
pub open spec fn fresh_totals() -> Totals {
    Totals {
        windows_traded: 0,
        windows_profitable: 0,
        net_realized: zero_amount(),
        locked_pair_pnl: zero_amount(),
        excess_pnl: zero_amount(),
        settlement_remainder: zero_amount(),
        taker_fees: zero_amount(),
        estimated_rebate: zero_amount(),
        maker_fills: 0,
        taker_fills: 0,
        taker_notional: zero_amount(),
        markout_5s_n: 0,
        markout_5s_min: crate::floatkey::INFINITY_KEY,
        markout_5s_max: (-crate::floatkey::INFINITY_KEY) as i64,
    }
}

/// Zero.
pub open spec fn zero_amount() -> Amount {
    Amount::of_parts((0, 0))
}

/// The sum of the magnitudes of the money in some totals, in steps.
pub open spec fn load(t: Totals) -> int {
    t.net_realized.size()
        + t.locked_pair_pnl.size()
        + t.excess_pnl.size()
        + t.settlement_remainder.size()
        + t.taker_fees.size()
        + t.estimated_rebate.size()
        + t.taker_notional.size()
}

/// The sum of two amounts: there is one where their magnitudes add up within the decimal type.
fn added(a: &Amount, b: &Amount) -> (r: Option<Amount>)
    ensures
        r is Some <==> Amount::has_sum(*a, *b),
        r matches Some(x) ==> x == Amount::sum_of(*a, *b),
        a.size() + b.size() <= crate::decimal::max_value() ==> r is Some && r->0.size() <= a.size()
            + b.size() + UNIT,
{
    proof {
        a.lemma_size();
        b.lemma_size();
    }
    let r = a.checked_plus(b);
    proof {
        if let Some(x) = r {
            x.lemma_size();
        }
    }
    r
}

/// Every size in some totals is at most their load.
pub proof fn lemma_load(t: Totals)
    ensures
        load(t) >= 0,
        0 <= t.net_realized.size() <= load(t),
        0 <= t.locked_pair_pnl.size() <= load(t),
        0 <= t.excess_pnl.size() <= load(t),
        0 <= t.settlement_remainder.size() <= load(t),
        0 <= t.taker_fees.size() <= load(t),
        0 <= t.estimated_rebate.size() <= load(t),
        0 <= t.taker_notional.size() <= load(t),
{
    t.net_realized.lemma_size();
    t.locked_pair_pnl.lemma_size();
    t.excess_pnl.lemma_size();
    t.settlement_remainder.lemma_size();
    t.taker_fees.lemma_size();
    t.estimated_rebate.lemma_size();
    t.taker_notional.lemma_size();
}

impl Totals {
    /// Totals of nothing.
    pub fn new() -> (r: Totals)
        ensures
            r == fresh_totals(),
            load(r) == 0,
    {
        let zero = Amount::new(0, 0);
        assert(0 * crate::decimal::pow10(28) == 0);
        proof {
            zero.lemma_size();
        }
        Totals {
            windows_traded: 0,
            windows_profitable: 0,
            net_realized: zero,
            locked_pair_pnl: zero,
            excess_pnl: zero,
            settlement_remainder: zero,
            taker_fees: zero,
            estimated_rebate: zero,
            maker_fills: 0,
            taker_fills: 0,
            taker_notional: zero,
            markout_5s_n: 0,
            markout_5s_min: crate::floatkey::INFINITY_KEY,
            markout_5s_max: -crate::floatkey::INFINITY_KEY,
        }
    }

    /// The totals with one more settled window.
    pub open spec fn with_window(self, a: WindowAttribution) -> Totals {
        Totals {
            windows_traded: (self.windows_traded + 1) as u32,
            windows_profitable: if a.realized_pnl.value() > 0 {
                (self.windows_profitable + 1) as u32
            } else {
                self.windows_profitable
            },
            net_realized: Amount::sum_of(self.net_realized, a.realized_pnl),
            locked_pair_pnl: Amount::sum_of(self.locked_pair_pnl, a.locked_pair_pnl),
            excess_pnl: Amount::sum_of(self.excess_pnl, a.excess_pnl),
            settlement_remainder: Amount::sum_of(self.settlement_remainder, a.settlement_remainder),
            taker_fees: Amount::sum_of(self.taker_fees, a.taker_fees),
            estimated_rebate: Amount::sum_of(self.estimated_rebate, a.estimated_rebate),
            taker_notional: Amount::sum_of(self.taker_notional, a.taker_notional),
            maker_fills: (self.maker_fills + a.maker_fills) as u64,
            taker_fills: (self.taker_fills + a.taker_fills) as u64,
            ..self
        }
    }

    /// Whether there is room for one more settled window with so many fills.
    pub open spec fn room_for(self, makers: int, takers: int) -> bool {
        &&& self.windows_traded < u32::MAX
        &&& self.windows_profitable < u32::MAX
        &&& self.maker_fills + makers <= u64::MAX
        &&& self.taker_fills + takers <= u64::MAX
        &&& load(self) <= 60 * SAFE_UNITS * UNIT
    }

    /// Whether there is room for one more settled window.
    pub open spec fn has_room(self, a: WindowAttribution) -> bool {
        &&& self.room_for(a.maker_fills as int, a.taker_fills as int)
        &&& a.bounded()
        &&& a.taker_notional.within(SAFE_UNITS * 7)
    }

    /// Whether one more settled window can be taken in: every counter and every sum has room for it.
    pub open spec fn takes_window(self, a: WindowAttribution) -> bool {
        &&& self.windows_traded < u32::MAX
        &&& a.realized_pnl.value() > 0 ==> self.windows_profitable < u32::MAX
        &&& self.maker_fills + a.maker_fills <= u64::MAX
        &&& self.taker_fills + a.taker_fills <= u64::MAX
        &&& Amount::has_sum(self.net_realized, a.realized_pnl)
        &&& Amount::has_sum(self.locked_pair_pnl, a.locked_pair_pnl)
        &&& Amount::has_sum(self.excess_pnl, a.excess_pnl)
        &&& Amount::has_sum(self.settlement_remainder, a.settlement_remainder)
        &&& Amount::has_sum(self.taker_fees, a.taker_fees)
        &&& Amount::has_sum(self.estimated_rebate, a.estimated_rebate)
        &&& Amount::has_sum(self.taker_notional, a.taker_notional)
    }

    /// The totals with one more settled window, `None` where there is no room for it.
    fn checked_window(&self, a: &WindowAttribution) -> (r: Option<Totals>)
        ensures
            r is Some <==> self.takes_window(*a),
            r matches Some(t) ==> t == self.with_window(*a),
            self.has_room(*a) ==> r is Some,
    {
        proof {
            lemma_load(*self);
            self.net_realized.lemma_size();
            self.locked_pair_pnl.lemma_size();
            self.excess_pnl.lemma_size();
            self.settlement_remainder.lemma_size();
            self.taker_fees.lemma_size();
            self.estimated_rebate.lemma_size();
            self.taker_notional.lemma_size();
        }
        if self.windows_traded == u32::MAX || self.maker_fills > u64::MAX - a.maker_fills
            || self.taker_fills > u64::MAX - a.taker_fills {
            return None;
        }
        let windows_profitable: u32 = if a.is_profitable() {
            if self.windows_profitable == u32::MAX {
                return None;
            }
            self.windows_profitable + 1
        } else {
            self.windows_profitable
        };
        let net_realized = self.net_realized.checked_plus(&a.realized_pnl);
        let locked_pair_pnl = self.locked_pair_pnl.checked_plus(&a.locked_pair_pnl);
        let excess_pnl = self.excess_pnl.checked_plus(&a.excess_pnl);
        let settlement_remainder = self.settlement_remainder.checked_plus(&a.settlement_remainder);
        let taker_fees = self.taker_fees.checked_plus(&a.taker_fees);
        let estimated_rebate = self.estimated_rebate.checked_plus(&a.estimated_rebate);
        let taker_notional = self.taker_notional.checked_plus(&a.taker_notional);
        match (
            net_realized,
            locked_pair_pnl,
            excess_pnl,
            settlement_remainder,
            taker_fees,
            estimated_rebate,
            taker_notional,
        ) {
            (
                Some(net_realized),
                Some(locked_pair_pnl),
                Some(excess_pnl),
                Some(settlement_remainder),
                Some(taker_fees),
                Some(estimated_rebate),
                Some(taker_notional),
            ) => Some(
                Totals {
                    windows_traded: self.windows_traded + 1,
                    windows_profitable,
                    net_realized,
                    locked_pair_pnl,
                    excess_pnl,
                    settlement_remainder,
                    taker_fees,
                    estimated_rebate,
                    maker_fills: self.maker_fills + a.maker_fills,
                    taker_fills: self.taker_fills + a.taker_fills,
                    taker_notional,
                    ..*self
                },
            ),
            _ => None,
        }
    }

    /// The totals of two sets of windows together.
    pub open spec fn together(self, d: Totals) -> Totals {
        Totals {
            windows_traded: (self.windows_traded + d.windows_traded) as u32,
            windows_profitable: (self.windows_profitable + d.windows_profitable) as u32,
            net_realized: Amount::sum_of(self.net_realized, d.net_realized),
            locked_pair_pnl: Amount::sum_of(self.locked_pair_pnl, d.locked_pair_pnl),
            excess_pnl: Amount::sum_of(self.excess_pnl, d.excess_pnl),
            settlement_remainder: Amount::sum_of(self.settlement_remainder, d.settlement_remainder),
            taker_fees: Amount::sum_of(self.taker_fees, d.taker_fees),
            estimated_rebate: Amount::sum_of(self.estimated_rebate, d.estimated_rebate),
            maker_fills: (self.maker_fills + d.maker_fills) as u64,
            taker_fills: (self.taker_fills + d.taker_fills) as u64,
            taker_notional: Amount::sum_of(self.taker_notional, d.taker_notional),
            markout_5s_n: (self.markout_5s_n + d.markout_5s_n) as u64,
            markout_5s_min: if d.markout_5s_min < self.markout_5s_min {
                d.markout_5s_min
            } else {
                self.markout_5s_min
            },
            markout_5s_max: if d.markout_5s_max > self.markout_5s_max {
                d.markout_5s_max
            } else {
                self.markout_5s_max
            },
        }
    }

    /// Whether other totals can be added in: every counter and every sum has room for them.
    pub open spec fn takes_totals(self, d: Totals) -> bool {
        &&& self.windows_traded + d.windows_traded <= u32::MAX
        &&& self.windows_profitable + d.windows_profitable <= u32::MAX
        &&& self.maker_fills + d.maker_fills <= u64::MAX
        &&& self.taker_fills + d.taker_fills <= u64::MAX
        &&& self.markout_5s_n + d.markout_5s_n <= u32::MAX
        &&& Amount::has_sum(self.net_realized, d.net_realized)
        &&& Amount::has_sum(self.locked_pair_pnl, d.locked_pair_pnl)
        &&& Amount::has_sum(self.excess_pnl, d.excess_pnl)
        &&& Amount::has_sum(self.settlement_remainder, d.settlement_remainder)
        &&& Amount::has_sum(self.taker_fees, d.taker_fees)
        &&& Amount::has_sum(self.estimated_rebate, d.estimated_rebate)
        &&& Amount::has_sum(self.taker_notional, d.taker_notional)
    }

    /// Whether other totals are sure to have room: the counters have it, and the money is far from
    /// what the decimal type can hold.
    pub open spec fn has_room_for(self, d: Totals) -> bool {
        &&& self.windows_traded + d.windows_traded <= u32::MAX
        &&& self.windows_profitable + d.windows_profitable <= u32::MAX
        &&& self.maker_fills + d.maker_fills <= u64::MAX
        &&& self.taker_fills + d.taker_fills <= u64::MAX
        &&& self.markout_5s_n + d.markout_5s_n <= u32::MAX
        &&& load(self) + load(d) <= 60 * SAFE_UNITS * UNIT
    }

    /// The totals of two sets of windows together, `None` where there is no room for them.
    fn checked_totals(&self, d: &Totals) -> (r: Option<Totals>)
        ensures
            r is Some <==> self.takes_totals(*d),
            r matches Some(t) ==> t == self.together(*d),
            self.has_room_for(*d) ==> r is Some && load(r->0) <= load(*self) + load(*d) + 7 * UNIT,
    {
        if self.windows_traded > u32::MAX - d.windows_traded || self.windows_profitable > u32::MAX
            - d.windows_profitable || self.maker_fills > u64::MAX - d.maker_fills
            || self.taker_fills > u64::MAX - d.taker_fills || d.markout_5s_n > u32::MAX as u64
            || self.markout_5s_n > u32::MAX as u64 - d.markout_5s_n {
            return None;
        }
        proof {
            lemma_load(*self);
            lemma_load(*d);
        }
        let net_realized = added(&self.net_realized, &d.net_realized);
        let locked_pair_pnl = added(&self.locked_pair_pnl, &d.locked_pair_pnl);
        let excess_pnl = added(&self.excess_pnl, &d.excess_pnl);
        let settlement_remainder = added(&self.settlement_remainder, &d.settlement_remainder);
        let taker_fees = added(&self.taker_fees, &d.taker_fees);
        let estimated_rebate = added(&self.estimated_rebate, &d.estimated_rebate);
        let taker_notional = added(&self.taker_notional, &d.taker_notional);
        match (
            net_realized,
            locked_pair_pnl,
            excess_pnl,
            settlement_remainder,
            taker_fees,
            estimated_rebate,
            taker_notional,
        ) {
            (
                Some(net_realized),
                Some(locked_pair_pnl),
                Some(excess_pnl),
                Some(settlement_remainder),
                Some(taker_fees),
                Some(estimated_rebate),
                Some(taker_notional),
            ) => Some(
                Totals {
                    windows_traded: self.windows_traded + d.windows_traded,
                    windows_profitable: self.windows_profitable + d.windows_profitable,
                    net_realized,
                    locked_pair_pnl,
                    excess_pnl,
                    settlement_remainder,
                    taker_fees,
                    estimated_rebate,
                    maker_fills: self.maker_fills + d.maker_fills,
                    taker_fills: self.taker_fills + d.taker_fills,
                    taker_notional,
                    markout_5s_n: self.markout_5s_n + d.markout_5s_n,
                    markout_5s_min: if d.markout_5s_min < self.markout_5s_min {
                        d.markout_5s_min
                    } else {
                        self.markout_5s_min
                    },
                    markout_5s_max: if d.markout_5s_max > self.markout_5s_max {
                        d.markout_5s_max
                    } else {
                        self.markout_5s_max
                    },
                },
            ),
            _ => None,
        }
    }

    /// The totals with markouts counted in, those that are not finite left out.
    pub open spec fn with_markouts(self, keys: Seq<i64>) -> Totals
        decreases keys.len(),
    {
        if keys.len() == 0 {
            self
        } else {
            let t = self.with_markouts(keys.drop_last());
            let k = keys.last();
            if crate::floatkey::finite_key(k as int) {
                Totals {
                    markout_5s_n: (t.markout_5s_n + 1) as u64,
                    markout_5s_min: if k < t.markout_5s_min {
                        k
                    } else {
                        t.markout_5s_min
                    },
                    markout_5s_max: if k > t.markout_5s_max {
                        k
                    } else {
                        t.markout_5s_max
                    },
                    ..t
                }
            } else {
                t
            }
        }
    }
}

/// Whether the four trading buckets of some totals add up to the net ledger PnL.
pub open spec fn reconciled(t: Totals) -> bool {
    t.locked_pair_pnl.value() + t.excess_pnl.value() + t.settlement_remainder.value()
        + t.taker_fees.value() == t.net_realized.value()
}

/// Whether a decimal sum is the exact one.
pub open spec fn adds_exactly(a: Amount, b: Amount) -> bool {
    Amount::sum_of(a, b).value() == a.value() + b.value()
}

/// A settled window adds each of its figures to the total of that same figure, counts as one window
/// traded, and as a profitable one where its ledger PnL is above zero. So totals that reconcile go
/// on reconciling with every window that does.
pub proof fn law_window_adds_to_its_own_buckets(t: Totals, a: WindowAttribution)
    requires
        t.takes_window(a),
        adds_exactly(t.net_realized, a.realized_pnl),
        adds_exactly(t.locked_pair_pnl, a.locked_pair_pnl),
        adds_exactly(t.excess_pnl, a.excess_pnl),
        adds_exactly(t.settlement_remainder, a.settlement_remainder),
        adds_exactly(t.taker_fees, a.taker_fees),
        adds_exactly(t.estimated_rebate, a.estimated_rebate),
        adds_exactly(t.taker_notional, a.taker_notional),
    ensures
        ({
            let u = t.with_window(a);
            &&& u.net_realized.value() == t.net_realized.value() + a.realized_pnl.value()
            &&& u.locked_pair_pnl.value() == t.locked_pair_pnl.value() + a.locked_pair_pnl.value()
            &&& u.excess_pnl.value() == t.excess_pnl.value() + a.excess_pnl.value()
            &&& u.settlement_remainder.value() == t.settlement_remainder.value()
                + a.settlement_remainder.value()
            &&& u.taker_fees.value() == t.taker_fees.value() + a.taker_fees.value()
            &&& u.estimated_rebate.value() == t.estimated_rebate.value()
                + a.estimated_rebate.value()
            &&& u.taker_notional.value() == t.taker_notional.value() + a.taker_notional.value()
            &&& u.maker_fills == t.maker_fills + a.maker_fills
            &&& u.taker_fills == t.taker_fills + a.taker_fills
            &&& u.windows_traded == t.windows_traded + 1
            &&& u.windows_profitable == t.windows_profitable + (if a.realized_pnl.value() > 0 {
                1int
            } else {
                0
            })
            &&& u.markout_5s_n == t.markout_5s_n && u.markout_5s_min == t.markout_5s_min
                && u.markout_5s_max == t.markout_5s_max
            &&& reconciled(t) && a.trading_total() == a.realized_pnl.value() ==> reconciled(u)
        }),
{
}

/// Two totals together hold of each figure what the two hold of it; the smallest and the largest
/// markout are those of the two. So totals that reconcile do so together.
pub proof fn law_totals_add_up_figure_by_figure(t: Totals, d: Totals)
    requires
        t.takes_totals(d),
        adds_exactly(t.net_realized, d.net_realized),
        adds_exactly(t.locked_pair_pnl, d.locked_pair_pnl),
        adds_exactly(t.excess_pnl, d.excess_pnl),
        adds_exactly(t.settlement_remainder, d.settlement_remainder),
        adds_exactly(t.taker_fees, d.taker_fees),
        adds_exactly(t.estimated_rebate, d.estimated_rebate),
        adds_exactly(t.taker_notional, d.taker_notional),
    ensures
        ({
            let u = t.together(d);
            &&& u.net_realized.value() == t.net_realized.value() + d.net_realized.value()
            &&& u.locked_pair_pnl.value() == t.locked_pair_pnl.value() + d.locked_pair_pnl.value()
            &&& u.excess_pnl.value() == t.excess_pnl.value() + d.excess_pnl.value()
            &&& u.settlement_remainder.value() == t.settlement_remainder.value()
                + d.settlement_remainder.value()
            &&& u.taker_fees.value() == t.taker_fees.value() + d.taker_fees.value()
            &&& u.estimated_rebate.value() == t.estimated_rebate.value()
                + d.estimated_rebate.value()
            &&& u.taker_notional.value() == t.taker_notional.value() + d.taker_notional.value()
            &&& u.maker_fills == t.maker_fills + d.maker_fills
            &&& u.taker_fills == t.taker_fills + d.taker_fills
            &&& u.windows_traded == t.windows_traded + d.windows_traded
            &&& u.windows_profitable == t.windows_profitable + d.windows_profitable
            &&& u.markout_5s_n == t.markout_5s_n + d.markout_5s_n
            &&& u.markout_5s_min <= t.markout_5s_min && u.markout_5s_min <= d.markout_5s_min && (
            u.markout_5s_min == t.markout_5s_min || u.markout_5s_min == d.markout_5s_min)
            &&& u.markout_5s_max >= t.markout_5s_max && u.markout_5s_max >= d.markout_5s_max && (
            u.markout_5s_max == t.markout_5s_max || u.markout_5s_max == d.markout_5s_max)
            &&& reconciled(t) && reconciled(d) ==> reconciled(u)
        }),
{
}

/// Totals of nothing reconcile and hold nothing.
pub proof fn law_fresh_totals_hold_nothing()
    ensures
        reconciled(fresh_totals()),
        fresh_totals().net_realized.value() == 0,
        fresh_totals().locked_pair_pnl.value() == 0,
        fresh_totals().excess_pnl.value() == 0,
        fresh_totals().settlement_remainder.value() == 0,
        fresh_totals().taker_fees.value() == 0,
        fresh_totals().estimated_rebate.value() == 0,
        fresh_totals().taker_notional.value() == 0,
        fresh_totals().windows_traded == 0 && fresh_totals().windows_profitable == 0,
        fresh_totals().maker_fills == 0 && fresh_totals().taker_fills == 0,
        fresh_totals().markout_5s_n == 0,
        forall|k: int| #[trigger]
            crate::floatkey::finite_key(k) ==> fresh_totals().markout_5s_max < k
                < fresh_totals().markout_5s_min,
{
    Amount::lemma_zero_value();
}

/// Every finite markout is counted, lies between the smallest and the largest, and these are ones
/// that were counted; nothing else about the totals changes.
pub proof fn law_markouts_are_counted_and_bounded(t: Totals, keys: Seq<i64>)
    requires
        t.markout_5s_n + keys.len() <= u32::MAX,
    ensures
        ({
            let u = t.with_markouts(keys);
            &&& u.markout_5s_n == t.markout_5s_n + keys.filter(
                |k: i64| crate::floatkey::finite_key(k as int),
            ).len()
            &&& u.markout_5s_n <= t.markout_5s_n + keys.len()
            &&& forall|i: int|
                0 <= i < keys.len() && crate::floatkey::finite_key((#[trigger] keys[i]) as int)
                    ==> u.markout_5s_min <= keys[i] <= u.markout_5s_max
            &&& u.markout_5s_min <= t.markout_5s_min && u.markout_5s_max >= t.markout_5s_max
            &&& u.markout_5s_min == t.markout_5s_min || keys.contains(u.markout_5s_min)
            &&& u.markout_5s_max == t.markout_5s_max || keys.contains(u.markout_5s_max)
            &&& u == Totals {
                markout_5s_n: u.markout_5s_n,
                markout_5s_min: u.markout_5s_min,
                markout_5s_max: u.markout_5s_max,
                ..t
            }
        }),
    decreases keys.len(),
{
    reveal(Seq::filter);
    if keys.len() > 0 {
        let rest = keys.drop_last();
        law_markouts_are_counted_and_bounded(t, rest);
        let v = t.with_markouts(rest);
        let u = t.with_markouts(keys);
        assert forall|i: int|
            0 <= i < keys.len() && crate::floatkey::finite_key(
                (#[trigger] keys[i]) as int,
            ) implies u.markout_5s_min <= keys[i] <= u.markout_5s_max by {
            if i < rest.len() {
                assert(rest[i] == keys[i]);
            }
        }
        assert(keys[keys.len() - 1] == keys.last());
        if rest.contains(v.markout_5s_min) {
            let i = choose|i: int| 0 <= i < rest.len() && rest[i] == v.markout_5s_min;
            assert(keys[i] == v.markout_5s_min);
        }
        if rest.contains(v.markout_5s_max) {
            let i = choose|i: int| 0 <= i < rest.len() && rest[i] == v.markout_5s_max;
            assert(keys[i] == v.markout_5s_max);
        }
    }
}

/// A histogram with markouts counted in, those that are not finite left out.
pub open spec fn counted(hist: Seq<u32>, keys: Seq<i64>) -> Seq<u32>
    decreases keys.len(),
{
    if keys.len() == 0 {
        hist
    } else {
        let h = counted(hist, keys.drop_last());
        let k = keys.last() as int;
        if crate::floatkey::finite_key(k) {
            h.update(bin_of(k), (h[bin_of(k)] + 1) as u32)
        } else {
            h
        }
    }
}

/// The bins of two histograms added up.
pub open spec fn hist_sum(a: Seq<u32>, b: Seq<u32>) -> Seq<u32> {
    Seq::new(a.len(), |i: int| (a[i] + b[i]) as u32)
}

/// An empty histogram.
pub open spec fn empty_hist() -> Seq<u32> {
    Seq::new(17, |i: int| 0u32)
}

/// An empty histogram.
fn new_hist() -> (r: Vec<u32>)
    ensures
        r@ == empty_hist(),
{
    let mut r: Vec<u32> = Vec::new();
    let mut i: usize = 0;
    while i < MARKOUT_BIN_COUNT
        invariant
            i <= 17,
            r@ == empty_hist().subrange(0, i as int),
        decreases 17 - i,
    {
        r.push(0);
        i = i + 1;
        assert(r@ =~= empty_hist().subrange(0, i as int));
    }
    assert(r@ =~= empty_hist());
    r
}

/// A copy of a histogram.
fn copy_hist(h: &Vec<u32>) -> (r: Vec<u32>)
    ensures
        r@ == h@,
{
    let mut r: Vec<u32> = Vec::new();
    let mut i: usize = 0;
    while i < h.len()
        invariant
            i <= h@.len(),
            r@ == h@.subrange(0, i as int),
        decreases h.len() - i,
    {
        r.push(h[i]);
        i = i + 1;
        assert(r@ =~= h@.subrange(0, i as int));
    }
    assert(r@ =~= h@);
    r
}

/// One day's aggregate for one series.
#[derive(Clone, Debug)]
pub struct DailyRollup {
    /// The session's mode.
    pub mode: Mode,
    /// The series.
    pub series: Series,
    /// The UTC day.
    pub day: DayKey,
    /// Money and counts.
    pub totals: Totals,
    /// The five-second-markout histogram.
    pub markout_5s_hist: Vec<u32>,
}

/// One day's aggregate for one series, its histogram as a sequence.
pub struct DailyView {
    pub mode: Mode,
    pub series: Series,
    pub day: DayKey,
    pub totals: Totals,
    pub hist: Seq<u32>,
}

impl View for DailyRollup {
    type V = DailyView;

    open spec fn view(&self) -> DailyView {
        DailyView {
            mode: self.mode,
            series: self.series,
            day: self.day,
            totals: self.totals,
            hist: self.markout_5s_hist@,
        }
    }
}

impl DailyView {
    /// A day without windows.
    pub open spec fn fresh(mode: Mode, series: Series, day: DayKey) -> DailyView {
        DailyView { mode, series, day, totals: fresh_totals(), hist: empty_hist() }
    }

    /// The day with one more settled window and its passive five-second markouts.
    pub open spec fn folded(self, a: WindowAttribution, keys: Seq<i64>) -> DailyView {
        DailyView {
            totals: self.totals.with_window(a).with_markouts(keys),
            hist: counted(self.hist, keys),
            ..self
        }
    }

    /// Whether the histogram has its bins and no bin counts more than were counted in all.
    pub open spec fn wf(self) -> bool {
        &&& self.hist.len() == 17
        &&& forall|i: int| 0 <= i < 17 ==> #[trigger] self.hist[i] <= self.totals.markout_5s_n
        &&& self.totals.windows_profitable <= self.totals.windows_traded
    }

    /// Whether there is room for one more settled window and its markouts.
    pub open spec fn has_room(self, a: WindowAttribution, keys: Seq<i64>) -> bool {
        &&& self.totals.has_room(a)
        &&& self.totals.markout_5s_n + keys.len() <= u32::MAX
    }

    /// Whether one more settled window and its markouts can be taken in.
    pub open spec fn takes(self, a: WindowAttribution, keys: Seq<i64>) -> bool {
        &&& self.totals.takes_window(a)
        &&& self.totals.markout_5s_n + keys.len() <= u32::MAX
    }
}

/// Counting more markouts keeps the histogram's shape.
proof fn lemma_counted(hist: Seq<u32>, t: Totals, keys: Seq<i64>)
    requires
        hist.len() == 17,
        forall|i: int| 0 <= i < 17 ==> #[trigger] hist[i] <= t.markout_5s_n,
        t.markout_5s_n + keys.len() <= u32::MAX,
    ensures
        counted(hist, keys).len() == 17,
        t.with_markouts(keys).markout_5s_n <= t.markout_5s_n + keys.len(),
        forall|i: int|
            0 <= i < 17 ==> #[trigger] counted(hist, keys)[i] <= t.with_markouts(
                keys,
            ).markout_5s_n,
        t.with_markouts(keys).windows_traded == t.windows_traded,
        t.with_markouts(keys).windows_profitable == t.windows_profitable,
    decreases keys.len(),
{
    if keys.len() > 0 {
        lemma_counted(hist, t, keys.drop_last());
        law_bin_bounds(keys.last() as int);
    }
}

/// The markouts of all bins.
pub open spec fn in_bins(hist: Seq<u32>) -> int {
    crate::table::sum_by(hist, |c: u32| c as int)
}

/// A histogram whose bins hold the markouts counted so far goes on doing so: each finite one is
/// in one bin.
pub proof fn law_bins_hold_every_markout(hist: Seq<u32>, t: Totals, keys: Seq<i64>)
    requires
        hist.len() == 17,
        forall|i: int| 0 <= i < 17 ==> #[trigger] hist[i] <= t.markout_5s_n,
        t.markout_5s_n + keys.len() <= u32::MAX,
        in_bins(hist) == t.markout_5s_n,
    ensures
        in_bins(counted(hist, keys)) == t.with_markouts(keys).markout_5s_n,
    decreases keys.len(),
{
    if keys.len() > 0 {
        let rest = keys.drop_last();
        law_bins_hold_every_markout(hist, t, rest);
        lemma_counted(hist, t, rest);
        let k = keys.last() as int;
        law_bin_bounds(k);
        if crate::floatkey::finite_key(k) {
            let h = counted(hist, rest);
            crate::table::lemma_sum_update(
                h,
                bin_of(k),
                (h[bin_of(k)] + 1) as u32,
                |c: u32| c as int,
            );
        }
    }
}

/// Each bin grows by the finite markouts whose bin it is.
pub proof fn law_markout_goes_to_its_bin(hist: Seq<u32>, t: Totals, keys: Seq<i64>, bin: int)
    requires
        hist.len() == 17,
        forall|i: int| 0 <= i < 17 ==> #[trigger] hist[i] <= t.markout_5s_n,
        t.markout_5s_n + keys.len() <= u32::MAX,
        0 <= bin < 17,
    ensures
        counted(hist, keys)[bin] == hist[bin] + keys.filter(
            |k: i64| crate::floatkey::finite_key(k as int) && bin_of(k as int) == bin,
        ).len(),
    decreases keys.len(),
{
    reveal(Seq::filter);
    if keys.len() > 0 {
        let rest = keys.drop_last();
        law_markout_goes_to_its_bin(hist, t, rest, bin);
        lemma_counted(hist, t, rest);
        law_bin_bounds(keys.last() as int);
    }
}

/// A settled window is booked under its series and the UTC day of its close, and under no other; the
/// other days are as they were.
pub proof fn law_window_is_booked_on_its_closing_day(
    s: Days,
    a: WindowAttribution,
    keys: Seq<i64>,
    other: SeriesDay,
)
    requires
        store_wf(s),
    ensures
        booked_under(a).series == a.window.series,
        booked_under(a).day.days() * 86_400_000 <= a.ts_ms < (booked_under(a).day.days() + 1)
            * 86_400_000,
        crate::table::lookup(store_folded(s, a, keys), booked_under(a)) is Some,
        other != booked_under(a) ==> crate::table::lookup(store_folded(s, a, keys), other)
            == crate::table::lookup(s, other),
        ({
            let was = day_entry(s, booked_under(a), a.mode);
            let now = crate::table::lookup(store_folded(s, a, keys), booked_under(a))->0;
            &&& now.series == was.series && now.day == was.day && now.mode == was.mode
            &&& now.totals == was.totals.with_window(a).with_markouts(keys)
            &&& now.hist == counted(was.hist, keys)
        }),
{
    let key = booked_under(a);
    crate::datekey::law_instant_is_within_its_day(a.ts_ms as int);
    DayKey::lemma_of_ts(a.ts_ms as int);
    crate::table::lemma_put(s, key, day_entry(s, key, a.mode).folded(a, keys));
    assert(crate::table::lookup(s, other) == crate::table::lookup(s, other));
}

impl DailyRollup {
    /// A day without windows.
    fn new(mode: Mode, series: Series, day: DayKey) -> (r: DailyRollup)
        ensures
            r@ == DailyView::fresh(mode, series, day),
            load(r@.totals) == 0,
            r@.wf(),
    {
        DailyRollup { mode, series, day, totals: Totals::new(), markout_5s_hist: new_hist() }
    }

    /// Takes in one settled window and its passive five-second markouts, as order keys.
    pub fn fold(&mut self, a: &WindowAttribution, markouts: &Vec<i64>)
        requires
            old(self)@.wf(),
            old(self)@.has_room(*a, markouts@),
        ensures
            final(self)@ == old(self)@.folded(*a, markouts@),
            final(self)@.wf(),
    {
        let _ = self.checked_fold(a, markouts);
    }

    /// Takes in one settled window and its passive five-second markouts, as order keys, and says
    /// whether there was room for them; where there was none, nothing changes.
    pub fn checked_fold(&mut self, a: &WindowAttribution, markouts: &Vec<i64>) -> (r: bool)
        requires
            old(self)@.wf(),
        ensures
            r == old(self)@.takes(*a, markouts@),
            r ==> final(self)@ == old(self)@.folded(*a, markouts@),
            !r ==> final(self)@ == old(self)@,
            final(self)@.wf(),
            old(self)@.has_room(*a, markouts@) ==> r,
    {
        let ghost before = self@;
        let totals = match self.totals.checked_window(a) {
            Some(t) => t,
            None => return false,
        };
        if markouts.len() > u32::MAX as usize || self.totals.markout_5s_n > u32::MAX as u64
            - markouts.len() as u64 {
            return false;
        }
        self.totals = totals;
        let ghost t0 = self.totals;
        let mut i: usize = 0;
        assert(markouts@.subrange(0, 0) =~= Seq::empty());
        while i < markouts.len()
            invariant
                i <= markouts@.len(),
                before.wf(),
                t0 == before.totals.with_window(*a),
                t0.markout_5s_n == before.totals.markout_5s_n,
                t0.markout_5s_n + markouts@.len() <= u32::MAX,
                self.mode == before.mode,
                self.series == before.series,
                self.day == before.day,
                self.totals == t0.with_markouts(markouts@.subrange(0, i as int)),
                self.markout_5s_hist@ == counted(before.hist, markouts@.subrange(0, i as int)),
            decreases markouts.len() - i,
        {
            let k: i64 = markouts[i];
            let ghost part = markouts@.subrange(0, i + 1);
            proof {
                assert(part.drop_last() =~= markouts@.subrange(0, i as int));
                assert(part.last() == k);
                lemma_counted(before.hist, t0, markouts@.subrange(0, i as int));
                law_bin_bounds(k as int);
            }
            if crate::floatkey::is_finite_key(k) {
                if k < self.totals.markout_5s_min {
                    self.totals.markout_5s_min = k;
                }
                if k > self.totals.markout_5s_max {
                    self.totals.markout_5s_max = k;
                }
                let b: usize = markout_bin(k);
                let c: u32 = self.markout_5s_hist[b];
                self.markout_5s_hist[b] = c + 1;
                self.totals.markout_5s_n = self.totals.markout_5s_n + 1;
            }
            i = i + 1;
        }
        proof {
            assert(markouts@.subrange(0, markouts@.len() as int) =~= markouts@);
            lemma_counted(before.hist, t0, markouts@);
        }
        true
    }

    /// Ledger PnL per traded window; zero where none traded.
    pub fn pnl_per_window(&self) -> (r: Amount)
        requires
            splits(self.totals.net_realized, self.totals.windows_traded),
        ensures
            r == per_window_of(self.totals.net_realized, self.totals.windows_traded),
    {
        per_window(&self.totals.net_realized, self.totals.windows_traded)
    }

    /// The excess and the remainder.
    pub fn inventory_pnl(&self) -> (r: Amount)
        requires
            crate::decimal::abs_int(
                self.totals.excess_pnl.value() + self.totals.settlement_remainder.value(),
            ) <= crate::decimal::max_value(),
        ensures
            r == Amount::sum_of(self.totals.excess_pnl, self.totals.settlement_remainder),
    {
        self.totals.excess_pnl.plus(&self.totals.settlement_remainder)
    }
}

/// A total per window: the decimal quotient, or zero for no window.
pub open spec fn per_window_of(total: Amount, windows: u32) -> Amount {
    if windows == 0 {
        Amount::zero_spec()
    } else {
        Amount::quotient_of(total, Amount::of_parts((windows as int, 0)))->0
    }
}

/// Whether a total has a figure per window: whether the quotient is within the decimal type.
pub open spec fn has_per_window(total: Amount, windows: u32) -> bool {
    windows > 0 ==> Amount::quotient_of(total, Amount::of_parts((windows as int, 0))) is Some
}

/// Whether the figure per window is one that the decimal type is sure to hold.
pub open spec fn splits(total: Amount, windows: u32) -> bool {
    windows > 0 ==> crate::decimal::abs_int(total.value()) <= SAFE_UNITS * (windows * UNIT)
}

/// A total per window, zero for no window; `None` where the quotient is beyond the largest decimal.
pub fn checked_per_window(total: &Amount, windows: u32) -> (r: Option<Amount>)
    ensures
        r is Some <==> has_per_window(*total, windows),
        r matches Some(q) ==> q == per_window_of(*total, windows) && crate::decimal::abs_int(q.value())
            <= crate::decimal::abs_int(total.value()) + UNIT,
        r matches Some(q) ==> windows == 0 ==> q.value() == 0,
        r matches Some(q) ==> windows > 0 ==> forall|v: int| #[trigger]
            crate::decimal::is_decimal(v) && v * (windows * UNIT) == total.value() * UNIT
                ==> q.value() == v,
        splits(*total, windows) ==> r is Some,
        total.within(SAFE_UNITS as int) ==> r is Some,
{
    if windows == 0 {
        return Some(Amount::zero());
    }
    let n = Amount::from_u64(windows as u64);
    let r = total.divided_by(&n);
    proof {
        assert(SAFE_UNITS * UNIT <= SAFE_UNITS * (windows * UNIT)) by (nonlinear_arith)
            requires
                windows >= 1,
        ;
        if let Some(q) = r {
            lemma_quotient_bound(total.value(), n.value(), q.value());
        }
    }
    r
}

/// A total per window; zero for no window.
pub fn per_window(total: &Amount, windows: u32) -> (r: Amount)
    requires
        splits(*total, windows),
    ensures
        r == per_window_of(*total, windows),
        crate::decimal::abs_int(r.value()) <= crate::decimal::abs_int(total.value()) + UNIT,
{
    checked_per_window(total, windows).unwrap()
}

/// A quotient by at least one unit is at most the dividend and one unit.
proof fn lemma_quotient_bound(total: int, n: int, q: int)
    requires
        n >= UNIT,
        crate::decimal::abs_int(q * n - total * UNIT) < UNIT * n,
    ensures
        crate::decimal::abs_int(q) <= crate::decimal::abs_int(total) + UNIT,
{
    let t = crate::decimal::abs_int(total);
    assert(-(t + UNIT) <= q <= t + UNIT) by (nonlinear_arith)
        requires
            n >= UNIT,
            t >= 0,
            -t <= total <= t,
            q * n - total * UNIT < UNIT * n,
            total * UNIT - q * n < UNIT * n,
    ;
}

/// What a store of daily roll-ups holds.
pub type Days = Seq<(SeriesDay, DailyView)>;

/// A selector's values over some days, added up.
pub open spec fn total(days: Seq<DailyView>, what: spec_fn(DailyView) -> int) -> int
    decreases days.len(),
{
    if days.len() == 0 {
        0
    } else {
        total(days.drop_last(), what) + what(days.last())
    }
}

/// Windows traded.
pub open spec fn by_windows() -> spec_fn(DailyView) -> int {
    |d: DailyView| d.totals.windows_traded as int
}

/// Fills of both kinds.
pub open spec fn by_fills() -> spec_fn(DailyView) -> int {
    |d: DailyView| d.totals.maker_fills + d.totals.taker_fills
}

/// Markouts counted.
pub open spec fn by_samples() -> spec_fn(DailyView) -> int {
    |d: DailyView| d.totals.markout_5s_n as int
}

/// Money, with room for rounding.
pub open spec fn by_load() -> spec_fn(DailyView) -> int {
    |d: DailyView| load(d.totals) + 7 * UNIT
}

/// Whether some days add up within the counters and the decimal type.
pub open spec fn adds_up(days: Seq<DailyView>) -> bool {
    &&& total(days, by_windows()) <= u32::MAX
    &&& total(days, by_fills()) <= u64::MAX
    &&& total(days, by_samples()) <= u32::MAX
    &&& total(days, by_load()) <= SAFE_UNITS * UNIT
}

/// The days of a store.
pub open spec fn days_in(s: Days) -> Seq<DailyView> {
    s.map_values(|e: (SeriesDay, DailyView)| e.1)
}

/// Putting one more day among some adds its value to their total.
proof fn lemma_total_insert(
    days: Seq<DailyView>,
    at: int,
    d: DailyView,
    what: spec_fn(DailyView) -> int,
)
    requires
        0 <= at <= days.len(),
    ensures
        total(days.insert(at, d), what) == total(days, what) + what(d),
    decreases days.len(),
{
    let all = days.insert(at, d);
    if at == days.len() {
        assert(all.drop_last() =~= days);
    } else {
        assert(all.drop_last() =~= days.drop_last().insert(at, d));
        lemma_total_insert(days.drop_last(), at, d, what);
    }
}

/// The totals of some days are at least those of all but the last, and no less than zero.
proof fn lemma_adds_up_prefix(days: Seq<DailyView>)
    requires
        adds_up(days),
    ensures
        days.len() > 0 ==> adds_up(days.drop_last()),
        total(days, by_windows()) >= 0,
        total(days, by_fills()) >= 0,
        total(days, by_samples()) >= 0,
        total(days, by_load()) >= 0,
    decreases days.len(),
{
    if days.len() > 0 {
        lemma_load(days.last().totals);
        lemma_totals_nonnegative(days.drop_last());
    }
}

proof fn lemma_totals_nonnegative(days: Seq<DailyView>)
    ensures
        total(days, by_windows()) >= 0,
        total(days, by_fills()) >= 0,
        total(days, by_samples()) >= 0,
        total(days, by_load()) >= 0,
    decreases days.len(),
{
    if days.len() > 0 {
        lemma_load(days.last().totals);
        lemma_totals_nonnegative(days.drop_last());
    }
}

/// Cross-day totals for one series.
#[derive(Clone, Debug)]
pub struct SeriesAggregate {
    /// The session's mode.
    pub mode: Mode,
    /// The series.
    pub series: Series,
    /// Money and counts.
    pub totals: Totals,
    /// The five-second-markout histogram.
    pub markout_5s_hist: Vec<u32>,
}

/// Cross-day totals for one series, the histogram as a sequence.
pub struct AggregateView {
    pub mode: Mode,
    pub series: Series,
    pub totals: Totals,
    pub hist: Seq<u32>,
}

impl View for SeriesAggregate {
    type V = AggregateView;

    open spec fn view(&self) -> AggregateView {
        AggregateView {
            mode: self.mode,
            series: self.series,
            totals: self.totals,
            hist: self.markout_5s_hist@,
        }
    }
}

impl AggregateView {
    /// Totals of no day.
    pub open spec fn fresh(mode: Mode, series: Series) -> AggregateView {
        AggregateView { mode, series, totals: fresh_totals(), hist: empty_hist() }
    }

    /// The totals with one more day.
    pub open spec fn with_day(self, d: DailyView) -> AggregateView {
        AggregateView {
            totals: self.totals.together(d.totals),
            hist: hist_sum(self.hist, d.hist),
            ..self
        }
    }

    /// Whether the histogram has its bins and no bin counts more than were counted in all.
    pub open spec fn shaped(self) -> bool {
        &&& self.hist.len() == 17
        &&& forall|i: int| 0 <= i < 17 ==> #[trigger] self.hist[i] <= self.totals.markout_5s_n
    }

    /// Whether the totals are at most those of some days.
    pub open spec fn at_most(self, days: Seq<DailyView>) -> bool {
        &&& self.shaped()
        &&& self.totals.windows_profitable <= self.totals.windows_traded
        &&& self.totals.windows_traded <= total(days, by_windows())
        &&& self.totals.maker_fills + self.totals.taker_fills <= total(days, by_fills())
        &&& self.totals.markout_5s_n <= total(days, by_samples())
        &&& load(self.totals) <= total(days, by_load())
    }
}

impl SeriesAggregate {
    /// Totals of no day.
    pub fn new(mode: Mode, series: Series) -> (r: SeriesAggregate)
        ensures
            r@ == AggregateView::fresh(mode, series),
            load(r@.totals) == 0,
            r@.shaped(),
    {
        SeriesAggregate { mode, series, totals: Totals::new(), markout_5s_hist: new_hist() }
    }

    /// Adds a day in.
    pub fn add_daily(&mut self, d: &DailyRollup)
        requires
            d@.wf(),
            old(self)@.shaped(),
            old(self).totals.has_room_for(d.totals),
        ensures
            final(self)@ == old(self)@.with_day(d@),
            load(final(self).totals) <= load(old(self).totals) + load(d.totals) + 7 * UNIT,
    {
        let _ = self.checked_daily(d);
    }

    /// Adds a day in and says whether there was room for it; where there was none, nothing changes.
    pub fn checked_daily(&mut self, d: &DailyRollup) -> (r: bool)
        requires
            d@.wf(),
            old(self)@.shaped(),
        ensures
            r == old(self).totals.takes_totals(d.totals),
            r ==> final(self)@ == old(self)@.with_day(d@),
            !r ==> final(self)@ == old(self)@,
            final(self)@.shaped(),
            old(self).totals.has_room_for(d.totals) ==> r && load(final(self).totals) <= load(
                old(self).totals,
            ) + load(d.totals) + 7 * UNIT,
    {
        let ghost before = self@;
        let ghost sum = hist_sum(before.hist, d@.hist);
        let totals = match self.totals.checked_totals(&d.totals) {
            Some(t) => t,
            None => return false,
        };
        self.totals = totals;
        let mut i: usize = 0;
        while i < MARKOUT_BIN_COUNT
            invariant
                i <= 17,
                before.hist.len() == 17,
                d@.hist.len() == 17,
                self.markout_5s_hist@.len() == 17,
                sum == hist_sum(before.hist, d@.hist),
                before.totals.markout_5s_n + d@.totals.markout_5s_n <= u32::MAX,
                forall|j: int|
                    0 <= j < 17 ==> #[trigger] before.hist[j] <= before.totals.markout_5s_n,
                forall|j: int| 0 <= j < 17 ==> #[trigger] d@.hist[j] <= d@.totals.markout_5s_n,
                forall|j: int|
                    0 <= j < 17 ==> #[trigger] self.markout_5s_hist@[j] == (if j < i {
                        sum[j]
                    } else {
                        before.hist[j]
                    }),
                self.mode == before.mode,
                self.series == before.series,
                self.totals == totals,
                totals == before.totals.together(d.totals),
            decreases 17 - i,
        {
            let c: u32 = self.markout_5s_hist[i];
            assert(before.hist[i as int] + d@.hist[i as int] <= u32::MAX);
            self.markout_5s_hist[i] = c + d.markout_5s_hist[i];
            i = i + 1;
        }
        assert(self.markout_5s_hist@ =~= sum);
        assert forall|j: int| 0 <= j < 17 implies #[trigger] self@.hist[j]
            <= self.totals.markout_5s_n by {
            assert(before.hist[j] <= before.totals.markout_5s_n);
            assert(d@.hist[j] <= d@.totals.markout_5s_n);
        }
        true
    }
}

/// Whether some days have aggregates: whether each adds up with those of its series before it.
pub open spec fn has_groups(days: Seq<DailyView>) -> bool
    decreases days.len(),
{
    days.len() > 0 ==> {
        let g = grouped(days.drop_last());
        let d = days.last();
        &&& has_groups(days.drop_last())
        &&& if g.len() > 0 && g.last().series == d.series {
            g.last().totals.takes_totals(d.totals)
        } else {
            fresh_totals().takes_totals(d.totals)
        }
    }
}

/// Days that have aggregates have them as far as any of them.
proof fn lemma_groups_of_first(days: Seq<DailyView>, n: int)
    requires
        0 <= n <= days.len(),
    ensures
        has_groups(days) ==> has_groups(days.subrange(0, n)),
    decreases days.len(),
{
    if n == days.len() {
        assert(days.subrange(0, n) =~= days);
    } else {
        lemma_groups_of_first(days.drop_last(), n);
        assert(days.drop_last().subrange(0, n) =~= days.subrange(0, n));
    }
}

/// One aggregate per series, of days that stand in series order.
pub open spec fn grouped(days: Seq<DailyView>) -> Seq<AggregateView>
    decreases days.len(),
{
    if days.len() == 0 {
        Seq::empty()
    } else {
        let g = grouped(days.drop_last());
        let d = days.last();
        if g.len() > 0 && g.last().series == d.series {
            g.drop_last().push(g.last().with_day(d))
        } else {
            g.push(AggregateView::fresh(d.mode, d.series).with_day(d))
        }
    }
}

/// Whether a series' day comes before another: by series, then by day.
pub open spec fn precedes(a: SeriesDay, b: SeriesDay) -> bool {
    a.series.rank_spec() < b.series.rank_spec() || (a.series.rank_spec() == b.series.rank_spec()
        && a.day.days() < b.day.days())
}

/// Whether a series' day comes before another.
fn comes_before(a: &SeriesDay, b: &SeriesDay) -> (r: bool)
    ensures
        r == precedes(*a, *b),
{
    a.series.rank() < b.series.rank() || (a.series.rank() == b.series.rank() && a.day.as_days()
        < b.day.as_days())
}

/// The days at some places of a store.
pub open spec fn picked(s: Days, picks: Seq<usize>) -> Seq<DailyView> {
    picks.map_values(|i: usize| s[i as int].1)
}

/// Whether some places of a store are those of the days that a window covers, each once, ordered
/// by series and day.
pub open spec fn is_selection(
    s: Days,
    window: ComparisonWindow,
    today: DayKey,
    picks: Seq<usize>,
) -> bool {
    &&& forall|j: int|
        0 <= j < picks.len() ==> #[trigger] picks[j] < s.len() && window.contains_spec(
            s[picks[j] as int].0.day,
            today,
        )
    &&& forall|i: int|
        0 <= i < s.len() && window.contains_spec(#[trigger] s[i].0.day, today) ==> picks.contains(
            i as usize,
        )
    &&& forall|j: int, k: int|
        0 <= j < k < picks.len() ==> precedes(
            s[#[trigger] picks[j] as int].0,
            s[#[trigger] picks[k] as int].0,
        )
}

/// A window covers the days of a store in one order: what it selects does not depend on the
/// order in which the days were booked.
pub proof fn law_one_selection(
    s: Days,
    window: ComparisonWindow,
    today: DayKey,
    a: Seq<usize>,
    b: Seq<usize>,
)
    requires
        s.len() <= usize::MAX,
        is_selection(s, window, today, a),
        is_selection(s, window, today, b),
    ensures
        a == b,
{
    let before = |x: int, y: int| precedes(s[x].0, s[y].0);
    let x = a.map_values(|i: usize| i as int);
    let y = b.map_values(|i: usize| i as int);
    assert(in_order(before, x));
    assert(in_order(before, y));
    assert(is_strict(before));
    assert forall|p: int| #[trigger] x.contains(p) <==> y.contains(p) by {
        if x.contains(p) {
            lemma_selected_too(s, window, today, a, b, p);
        }
        if y.contains(p) {
            lemma_selected_too(s, window, today, b, a, p);
        }
    }
    law_one_order(before, x, y);
    assert forall|j: int| 0 <= j < a.len() implies a[j] == b[j] by {
        assert(x[j] == y[j]);
    }
    assert(a =~= b);
}

/// What one selection holds, another holds too.
proof fn lemma_selected_too(
    s: Days,
    window: ComparisonWindow,
    today: DayKey,
    a: Seq<usize>,
    b: Seq<usize>,
    p: int,
)
    requires
        s.len() <= usize::MAX,
        is_selection(s, window, today, a),
        is_selection(s, window, today, b),
        a.map_values(|i: usize| i as int).contains(p),
    ensures
        b.map_values(|i: usize| i as int).contains(p),
{
    let x = a.map_values(|i: usize| i as int);
    let y = b.map_values(|i: usize| i as int);
    let j = choose|j: int| 0 <= j < x.len() && x[j] == p;
    assert(a[j] as int == p);
    assert(window.contains_spec(s[p].0.day, today));
    assert(b.contains(p as usize));
    let k = choose|k: int| 0 <= k < b.len() && b[k] == p as usize;
    assert(y[k] == p);
}

/// The daily roll-ups of one analytics instance.
#[derive(Clone, Debug)]
pub struct RollupStore {
    daily: Table<SeriesDay, DailyRollup>,
}

impl View for RollupStore {
    type V = Days;

    closed spec fn view(&self) -> Days {
        self.daily@
    }
}

/// Whether a store of roll-ups is consistent: no series' day twice, each under its own key, and
/// each with its bins.
pub open spec fn store_wf(s: Days) -> bool {
    &&& crate::table::unique_keys(s)
    &&& forall|i: int|
        0 <= i < s.len() ==> (#[trigger] s[i]).1.wf() && s[i].0.series == s[i].1.series
            && s[i].0.day == s[i].1.day
}

/// The roll-up of a series' day, a fresh one where there is none.
pub open spec fn day_entry(s: Days, key: SeriesDay, mode: Mode) -> DailyView {
    match crate::table::lookup(s, key) {
        Some(d) => d,
        None => DailyView::fresh(mode, key.series, key.day),
    }
}

/// The series' day that a settled window is booked under.
pub open spec fn booked_under(a: WindowAttribution) -> SeriesDay {
    SeriesDay { series: a.window.series, day: DayKey::of_ts(a.ts_ms as int) }
}

/// A store with one more settled window.
pub open spec fn store_folded(s: Days, a: WindowAttribution, keys: Seq<i64>) -> Days {
    let key = booked_under(a);
    crate::table::put(s, key, day_entry(s, key, a.mode).folded(a, keys))
}

impl RollupStore {
    /// Whether the store is consistent.
    pub open spec fn wf(&self) -> bool {
        store_wf(self@)
    }

    /// An empty store.
    pub fn new() -> (r: RollupStore)
        ensures
            r.wf(),
            r@ == Seq::<(SeriesDay, DailyView)>::empty(),
    {
        RollupStore { daily: Table::new() }
    }

    /// Takes in a settled window and its passive five-second markouts, as order keys, under the
    /// UTC day of its close.
    pub fn fold(&mut self, a: &WindowAttribution, markouts: &Vec<i64>)
        requires
            old(self).wf(),
            day_entry(old(self)@, booked_under(*a), a.mode).has_room(*a, markouts@),
        ensures
            final(self).wf(),
            final(self)@ == store_folded(old(self)@, *a, markouts@),
    {
        let _ = self.checked_fold(a, markouts);
    }

    /// Takes in a settled window and its passive five-second markouts, as order keys, under the
    /// UTC day of its close, and says whether that day had room for them; where it had none,
    /// nothing changes.
    pub fn checked_fold(&mut self, a: &WindowAttribution, markouts: &Vec<i64>) -> (r: bool)
        requires
            old(self).wf(),
        ensures
            final(self).wf(),
            r == day_entry(old(self)@, booked_under(*a), a.mode).takes(*a, markouts@),
            r ==> final(self)@ == store_folded(old(self)@, *a, markouts@),
            !r ==> final(self)@ == old(self)@,
            day_entry(old(self)@, booked_under(*a), a.mode).has_room(*a, markouts@) ==> r,
    {
        let ghost before = self@;
        let day = DayKey::from_ts(a.ts_ms);
        let key = SeriesDay { series: a.window.series, day };
        proof {
            crate::table::lemma_put(
                before,
                key,
                day_entry(before, key, a.mode).folded(*a, markouts@),
            );
        }
        let taken: bool = match self.daily.find(&key) {
            Some(i) => {
                proof {
                    crate::table::lemma_place(before, key, i as int);
                    assert(before[i as int].1.wf());
                }
                let d = self.daily.value_mut(i);
                let taken = d.checked_fold(a, markouts);
                assert(taken ==> self@ =~= store_folded(before, *a, markouts@));
                assert(!taken ==> self@ =~= before);
                taken
            },
            None => {
                let mut d = DailyRollup::new(a.mode, a.window.series, day);
                let taken = d.checked_fold(a, markouts);
                if taken {
                    self.daily.insert(key, d);
                    assert(self@ =~= store_folded(before, *a, markouts@));
                }
                taken
            },
        };
        proof {
            assert forall|i: int| 0 <= i < self@.len() implies (#[trigger] self@[i]).1.wf()
                && self@[i].0.series == self@[i].1.series && self@[i].0.day == self@[i].1.day by {
                if i < before.len() {
                    assert(before[i].1.wf());
                }
            }
        }
        taken
    }

    /// The roll-up of a series' day.
    pub fn daily(&self, series: Series, day: DayKey) -> (r: Option<&DailyRollup>)
        requires
            self.wf(),
        ensures
            match r {
                Some(d) => crate::table::lookup(self@, (SeriesDay { series, day })) == Some(d@),
                None => crate::table::lookup(self@, (SeriesDay { series, day })) is None,
            },
    {
        self.daily.get(&SeriesDay { series, day })
    }

    /// Every daily roll-up.
    pub fn daily_rollups(&self) -> (r: Vec<&DailyRollup>)
        ensures
            r@.len() == self@.len(),
            forall|i: int| 0 <= i < r@.len() ==> (#[trigger] r@[i])@ == self@[i].1,
    {
        let mut out: Vec<&DailyRollup> = Vec::new();
        let mut i: usize = 0;
        while i < self.daily.len()
            invariant
                i <= self@.len(),
                self@ == self.daily@,
                out@.len() == i,
                forall|j: int| 0 <= j < i ==> (#[trigger] out@[j])@ == self@[j].1,
            decreases self@.len() - i,
        {
            out.push(self.daily.value_at(i));
            i = i + 1;
        }
        out
    }

    /// The number of series' days.
    pub fn len(&self) -> (r: usize)
        ensures
            r == self@.len(),
    {
        self.daily.len()
    }

    /// The places of the days that a window covers, ordered by series and day.
    fn select(&self, window: ComparisonWindow, today: DayKey) -> (r: Vec<usize>)
        requires
            self.wf(),
            window is LastDays ==> today.days() - window->LastDays_0 >= i64::MIN,
        ensures
            is_selection(self@, window, today, r@),
            total(picked(self@, r@), by_windows()) <= total(days_in(self@), by_windows()),
            total(picked(self@, r@), by_fills()) <= total(days_in(self@), by_fills()),
            total(picked(self@, r@), by_samples()) <= total(days_in(self@), by_samples()),
            total(picked(self@, r@), by_load()) <= total(days_in(self@), by_load()),
    {
        let ghost s = self@;
        let n: usize = self.daily.len();
        let mut picks: Vec<usize> = Vec::new();
        let mut i: usize = 0;
        assert(picked(s, picks@) =~= Seq::empty());
        assert(days_in(s).subrange(0, 0) =~= Seq::empty());
        while i < n
            invariant
                self.wf(),
                s == self@,
                self.daily@ == s,
                n == s.len(),
                i <= n,
                window is LastDays ==> today.days() - window->LastDays_0 >= i64::MIN,
                forall|j: int|
                    0 <= j < picks@.len() ==> #[trigger] picks@[j] < i && window.contains_spec(
                        s[picks@[j] as int].0.day,
                        today,
                    ),
                forall|k: int|
                    0 <= k < i && window.contains_spec(#[trigger] s[k].0.day, today)
                        ==> picks@.contains(k as usize),
                forall|j: int, k: int|
                    0 <= j < k < picks@.len() ==> precedes(
                        s[#[trigger] picks@[j] as int].0,
                        s[#[trigger] picks@[k] as int].0,
                    ),
                total(picked(s, picks@), by_windows()) <= total(
                    days_in(s).subrange(0, i as int),
                    by_windows(),
                ),
                total(picked(s, picks@), by_fills()) <= total(
                    days_in(s).subrange(0, i as int),
                    by_fills(),
                ),
                total(picked(s, picks@), by_samples()) <= total(
                    days_in(s).subrange(0, i as int),
                    by_samples(),
                ),
                total(picked(s, picks@), by_load()) <= total(
                    days_in(s).subrange(0, i as int),
                    by_load(),
                ),
            decreases s.len() - i,
        {
            let key = *self.daily.key_at(i);
            let ghost old_picks = picks@;
            let ghost part = days_in(s).subrange(0, i + 1);
            let ghost d = s[i as int].1;
            proof {
                assert(part.drop_last() =~= days_in(s).subrange(0, i as int));
                assert(part.last() == d);
                lemma_load(d.totals);
            }
            if window.contains(key.day, today) {
                let mut at: usize = picks.len();
                while at > 0 && comes_before(&key, self.daily.key_at(picks[at - 1]))
                    invariant
                        self.wf(),
                        s == self@,
                        self.daily@ == s,
                        i < s.len(),
                        key == s[i as int].0,
                        picks@ == old_picks,
                        at <= picks@.len(),
                        forall|j: int| 0 <= j < picks@.len() ==> #[trigger] picks@[j] < i,
                        forall|j: int|
                            at <= j < picks@.len() ==> precedes(
                                key,
                                s[#[trigger] picks@[j] as int].0,
                            ),
                    decreases at,
                {
                    at = at - 1;
                }
                picks.insert(at, i);
                proof {
                    assert(picked(s, picks@) =~= picked(s, old_picks).insert(at as int, d));
                    lemma_total_insert(picked(s, old_picks), at as int, d, by_windows());
                    lemma_total_insert(picked(s, old_picks), at as int, d, by_fills());
                    lemma_total_insert(picked(s, old_picks), at as int, d, by_samples());
                    lemma_total_insert(picked(s, old_picks), at as int, d, by_load());
                    assert(picks@[at as int] == i);
                    assert forall|j: int, k: int| 0 <= j < k < picks@.len() implies precedes(
                        s[#[trigger] picks@[j] as int].0,
                        s[#[trigger] picks@[k] as int].0,
                    ) by {
                        lemma_ordered_insert(s, old_picks, at as int, i, j, k);
                    }
                    assert forall|k: int|
                        0 <= k < i + 1 && window.contains_spec(
                            #[trigger] s[k].0.day,
                            today,
                        ) implies picks@.contains(k as usize) by {
                        if k < i {
                            let j = choose|j: int| 0 <= j < old_picks.len() && old_picks[j] == k;
                            assert(old_picks.contains(k as usize));
                            assert(picks@[if j < at {
                                j
                            } else {
                                j + 1
                            }] == k as usize);
                        }
                    }
                }
            }
            i = i + 1;
        }
        assert(days_in(s).subrange(0, s.len() as int) =~= days_in(s));
        picks
    }

    /// Cross-day aggregates over the days that a window covers, one for each series that traded,
    /// in series order.
    pub fn series_aggregates_over(&self, window: ComparisonWindow, today: DayKey) -> (r: Vec<
        SeriesAggregate,
    >)
        requires
            self.wf(),
            adds_up(days_in(self@)),
            window is LastDays ==> today.days() - window->LastDays_0 >= i64::MIN,
        ensures
            exists|picks: Seq<usize>|
                #![trigger picked(self@, picks)]
                is_selection(self@, window, today, picks) && views(r@) == grouped(
                    picked(self@, picks),
                ),
            forall|i: int| 0 <= i < r@.len() ==> (#[trigger] r@[i])@.at_most(days_in(self@)),
    {
        self.checked_aggregates_over(window, today).unwrap()
    }

    /// Cross-day aggregates over the days that a window covers, one for each series that traded,
    /// in series order; `None` where the days of a series do not add up.
    pub fn checked_aggregates_over(&self, window: ComparisonWindow, today: DayKey) -> (r: Option<
        Vec<SeriesAggregate>,
    >)
        requires
            self.wf(),
            window is LastDays ==> today.days() - window->LastDays_0 >= i64::MIN,
        ensures
            exists|picks: Seq<usize>|
                #![trigger picked(self@, picks)]
                is_selection(self@, window, today, picks) && (r is Some <==> has_groups(
                    picked(self@, picks),
                )) && (r matches Some(v) ==> views(v@) == grouped(picked(self@, picks))),
            adds_up(days_in(self@)) ==> r is Some && forall|i: int|
                0 <= i < r->0@.len() ==> (#[trigger] r->0@[i])@.at_most(days_in(self@)),
    {
        let picks = self.select(window, today);
        let ghost s = self@;
        let ghost days = picked(s, picks@);
        let mut out: Vec<SeriesAggregate> = Vec::new();
        let mut i: usize = 0;
        assert(days.subrange(0, 0) =~= Seq::empty());
        assert(views(out@) =~= Seq::empty());
        proof {
            lemma_totals_nonnegative(days);
        }
        while i < picks.len()
            invariant
                self.wf(),
                s == self@,
                self.daily@ == s,
                days == picked(s, picks@),
                i <= picks@.len(),
                is_selection(s, window, today, picks@),
                adds_up(days_in(s)) ==> adds_up(days),
                has_groups(days.subrange(0, i as int)),
                views(out@) == grouped(days.subrange(0, i as int)),
                forall|j: int| 0 <= j < out@.len() ==> (#[trigger] out@[j])@.shaped(),
                adds_up(days) ==> forall|j: int|
                    0 <= j < out@.len() ==> (#[trigger] out@[j])@.at_most(
                        days.subrange(0, i as int),
                    ),
            decreases picks.len() - i,
        {
            let d = self.daily.value_at(picks[i]);
            let ghost prefix = days.subrange(0, i as int);
            let ghost part = days.subrange(0, i + 1);
            proof {
                assert(part.drop_last() =~= prefix);
                assert(part.last() == d@);
                assert(s[picks@[i as int] as int].1.wf());
                lemma_groups_of_first(days, i + 1);
                if adds_up(days) {
                    lemma_prefix_total(days, i + 1);
                }
                lemma_totals_nonnegative(prefix);
                lemma_load(d.totals);
            }
            let n: usize = out.len();
            let extends = n > 0 && out[n - 1].series == d.series;
            proof {
                assert(views(out@).len() == n);
                if n > 0 {
                    assert(views(out@).last() == out@[n - 1]@);
                }
            }
            let ghost before = out@;
            let mut agg = SeriesAggregate::new(d.mode, d.series);
            if extends {
                if let Some(last) = out.pop() {
                    agg = last;
                }
                assert(agg == before[n - 1]);
                assert(adds_up(days) ==> before[n - 1]@.at_most(prefix));
            }
            let ghost grown = agg@;
            assert(adds_up(days) ==> grown.totals.has_room_for(d.totals));
            if !agg.checked_daily(d) {
                assert(!has_groups(part));
                return None;
            }
            out.push(agg);
            proof {
                if extends {
                    assert(views(out@) =~= views(before).drop_last().push(
                        views(before).last().with_day(d@),
                    ));
                } else {
                    assert(views(out@) =~= views(before).push(
                        AggregateView::fresh(d.mode, d.series).with_day(d@),
                    ));
                }
                if adds_up(days) {
                    assert forall|j: int| 0 <= j < out@.len() implies (#[trigger] out@[j])@.at_most(
                        part,
                    ) by {
                        if j < out@.len() - 1 {
                            assert(out@[j] == before[j]);
                            assert(before[j]@.at_most(prefix));
                        }
                    }
                }
            }
            i = i + 1;
        }
        proof {
            assert(days.subrange(0, picks@.len() as int) =~= days);
        }
        Some(out)
    }

    /// Cross-day aggregates over every day, one for each series that traded, in series order.
    pub fn series_aggregates(&self) -> (r: Vec<SeriesAggregate>)
        requires
            self.wf(),
            adds_up(days_in(self@)),
        ensures
            exists|picks: Seq<usize>, today: DayKey|
                #![trigger is_selection(self@, ComparisonWindow::All, today, picks)]
                is_selection(self@, ComparisonWindow::All, today, picks) && views(r@) == grouped(
                    picked(self@, picks),
                ),
            forall|i: int| 0 <= i < r@.len() ==> (#[trigger] r@[i])@.at_most(days_in(self@)),
    {
        let today = DayKey::from_days(0);
        let r = self.series_aggregates_over(ComparisonWindow::All, today);
        proof {
            let picks = choose|picks: Seq<usize>|
                #![trigger picked(self@, picks)]
                is_selection(self@, ComparisonWindow::All, today, picks) && views(r@) == grouped(
                    picked(self@, picks),
                );
            assert(is_selection(self@, ComparisonWindow::All, today, picks));
        }
        r
    }
}

/// The views of some aggregates.
pub open spec fn views(v: Seq<SeriesAggregate>) -> Seq<AggregateView> {
    v.map_values(|a: SeriesAggregate| a@)
}

proof fn lemma_prefix_total(days: Seq<DailyView>, n: int)
    requires
        adds_up(days),
        0 <= n <= days.len(),
    ensures
        adds_up(days.subrange(0, n)),
    decreases days.len() - n,
{
    if n == days.len() {
        assert(days.subrange(0, n) =~= days);
    } else {
        lemma_prefix_total(days, n + 1);
        lemma_adds_up_prefix(days.subrange(0, n + 1));
        assert(days.subrange(0, n + 1).drop_last() =~= days.subrange(0, n));
    }
}

/// Putting a place in behind all that it does not precede keeps the order.
proof fn lemma_ordered_insert(s: Days, picks: Seq<usize>, at: int, i: usize, j: int, k: int)
    requires
        crate::table::unique_keys(s),
        0 <= at <= picks.len(),
        i < s.len(),
        0 <= j < k < picks.len() + 1,
        forall|a: int| 0 <= a < picks.len() ==> #[trigger] picks[a] < i,
        forall|a: int, b: int|
            0 <= a < b < picks.len() ==> precedes(
                s[#[trigger] picks[a] as int].0,
                s[#[trigger] picks[b] as int].0,
            ),
        forall|a: int|
            at <= a < picks.len() ==> precedes(s[i as int].0, s[#[trigger] picks[a] as int].0),
        at > 0 ==> !precedes(s[i as int].0, s[picks[at - 1] as int].0),
    ensures
        precedes(
            s[picks.insert(at, i)[j] as int].0,
            s[picks.insert(at, i)[k] as int].0,
        ),
{
    let all = picks.insert(at, i);
    let key = s[i as int].0;
    if k == at {
        // `picks[j]` comes before `key`: it is at or before `picks[at - 1]`, which `key` does
        // not precede and is not.
        let last = picks[at - 1];
        assert(s[last as int].0 != key);
        Series::lemma_rank_unique(s[last as int].0.series, key.series);
        DayKey::lemma_days_unique(s[last as int].0.day, key.day);
        assert(precedes(s[last as int].0, key));
        if j < at - 1 {
            assert(precedes(s[picks[j] as int].0, s[last as int].0));
        }
    } else if j == at {
        assert(all[k] == picks[k - 1]);
    } else {
        let a = if j < at {
            j
        } else {
            j - 1
        };
        let b = if k < at {
            k
        } else {
            k - 1
        };
        assert(all[j] == picks[a] && all[k] == picks[b]);
    }
}

/// One row of the comparison table. The fractions that are shown are taken by the caller from
/// the counts.
#[derive(Clone, Debug)]
pub struct SeriesComparisonRow {
    /// The series.
    pub series: Series,
    /// The session's mode.
    pub mode: Mode,
    /// Windows traded.
    pub windows_traded: u32,
    /// Windows that were profitable.
    pub windows_profitable: u32,
    /// Net ledger PnL.
    pub net_pnl: Amount,
    /// Ledger PnL per traded window.
    pub pnl_per_window: Amount,
    /// The locked-pair bucket.
    pub locked_pair_pnl: Amount,
    /// Excess and remainder.
    pub inventory_pnl: Amount,
    /// Taker fees paid, as a positive cost.
    pub fees_paid: Amount,
    /// Estimated maker rebates.
    pub rebates_earned: Amount,
    /// Five-second markouts counted.
    pub markout_5s_n: u64,
    /// The smallest of them, as an order key.
    pub markout_5s_min: i64,
    /// The largest of them, as an order key.
    pub markout_5s_max: i64,
    /// Their histogram.
    pub markout_5s_hist: Vec<u32>,
    /// Maker fills.
    pub maker_fills: u64,
    /// Taker fills.
    pub taker_fills: u64,
    /// Price times size of taker fills.
    pub taker_notional: Amount,
    /// Taker notional per window, as a share of the window's budget.
    pub taker_budget_used: Option<Amount>,
    /// Whether too few windows traded to trust the row.
    pub min_sample_warning: bool,
    /// The adverse-selection alarm state.
    pub health: AdverseSelectionState,
}

/// The taker notional per window as a share of a budget; there is none where the budget is not
/// above zero or no window traded.
pub open spec fn budget_share(notional: Amount, windows: u32, budget: Amount) -> Option<Amount> {
    if budget.value() <= 0 || windows == 0 {
        None
    } else {
        Amount::quotient_of(per_window_of(notional, windows), budget)
    }
}

/// Whether a row is that of an aggregate.
pub open spec fn is_row(
    a: AggregateView,
    min_sample_windows: u32,
    budget: Amount,
    health: AdverseSelectionState,
    r: SeriesComparisonRow,
) -> bool {
    &&& r.series == a.series && r.mode == a.mode
    &&& r.windows_traded == a.totals.windows_traded && r.windows_profitable
        == a.totals.windows_profitable
    &&& r.net_pnl == a.totals.net_realized
    &&& r.pnl_per_window == per_window_of(a.totals.net_realized, a.totals.windows_traded)
    &&& r.locked_pair_pnl == a.totals.locked_pair_pnl
    &&& r.inventory_pnl == Amount::sum_of(a.totals.excess_pnl, a.totals.settlement_remainder)
    &&& r.fees_paid == a.totals.taker_fees.negated_spec()
    &&& r.rebates_earned == a.totals.estimated_rebate
    &&& r.markout_5s_n == a.totals.markout_5s_n && r.markout_5s_min == a.totals.markout_5s_min
        && r.markout_5s_max == a.totals.markout_5s_max && r.markout_5s_hist@ == a.hist
    &&& r.maker_fills == a.totals.maker_fills && r.taker_fills == a.totals.taker_fills
    &&& r.taker_notional == a.totals.taker_notional
    &&& r.taker_budget_used == budget_share(
        a.totals.taker_notional,
        a.totals.windows_traded,
        budget,
    )
    &&& r.min_sample_warning == (a.totals.windows_traded < min_sample_windows)
    &&& r.health == health
}

/// Whether an aggregate has a row: whether every figure of it is within the decimal type.
pub open spec fn has_row(a: AggregateView, budget: Amount) -> bool {
    let t = a.totals;
    &&& has_per_window(t.net_realized, t.windows_traded)
    &&& Amount::has_sum(t.excess_pnl, t.settlement_remainder)
    &&& budget.value() > 0 && t.windows_traded > 0 ==> has_per_window(
        t.taker_notional,
        t.windows_traded,
    ) && budget_share(t.taker_notional, t.windows_traded, budget) is Some
}

/// A row holds the books of its aggregate: locked pairs, inventory and the fees paid make up the net
/// PnL where the aggregate's buckets do, the fees are shown as a cost, and a row is marked where
/// fewer windows traded than are asked for.
pub proof fn law_row_keeps_the_books(
    a: AggregateView,
    min_sample_windows: u32,
    budget: Amount,
    health: AdverseSelectionState,
    r: SeriesComparisonRow,
)
    requires
        is_row(a, min_sample_windows, budget, health, r),
        a.totals.taker_fees.wf(),
        adds_exactly(a.totals.excess_pnl, a.totals.settlement_remainder),
    ensures
        r.fees_paid.value() == -a.totals.taker_fees.value(),
        r.inventory_pnl.value() == a.totals.excess_pnl.value()
            + a.totals.settlement_remainder.value(),
        reconciled(a.totals) ==> r.locked_pair_pnl.value() + r.inventory_pnl.value()
            - r.fees_paid.value() == r.net_pnl.value(),
        r.net_pnl == a.totals.net_realized && r.locked_pair_pnl == a.totals.locked_pair_pnl
            && r.rebates_earned == a.totals.estimated_rebate && r.taker_notional
            == a.totals.taker_notional,
        r.windows_traded == a.totals.windows_traded && r.windows_profitable
            == a.totals.windows_profitable && r.maker_fills == a.totals.maker_fills
            && r.taker_fills == a.totals.taker_fills,
        r.min_sample_warning <==> a.totals.windows_traded < min_sample_windows,
        r.taker_budget_used is Some ==> budget.value() > 0 && a.totals.windows_traded > 0,
        r.health == health,
{
    a.totals.taker_fees.lemma_negated();
}

/// A row is of its aggregate's series and mode and has its markouts. Its share of a window is the net
/// figure over the windows traded, and what it used of the budget is the taker notional over the
/// windows traded, over the budget; neither where no window was traded.
pub proof fn law_row_is_of_its_aggregate(
    a: AggregateView,
    min_sample_windows: u32,
    budget: Amount,
    health: AdverseSelectionState,
    r: SeriesComparisonRow,
)
    requires
        is_row(a, min_sample_windows, budget, health, r),
    ensures
        r.series == a.series && r.mode == a.mode,
        r.markout_5s_n == a.totals.markout_5s_n && r.markout_5s_min == a.totals.markout_5s_min
            && r.markout_5s_max == a.totals.markout_5s_max && r.markout_5s_hist@ == a.hist,
        a.totals.windows_traded == 0 ==> r.pnl_per_window == Amount::zero_spec()
            && r.taker_budget_used is None,
        a.totals.windows_traded > 0 ==> r.pnl_per_window == Amount::quotient_of(
            a.totals.net_realized,
            Amount::of_parts((a.totals.windows_traded as int, 0)),
        )->0,
        budget.value() <= 0 ==> r.taker_budget_used is None,
        a.totals.windows_traded > 0 && budget.value() > 0 ==> r.taker_budget_used
            == Amount::quotient_of(
            Amount::quotient_of(
                a.totals.taker_notional,
                Amount::of_parts((a.totals.windows_traded as int, 0)),
            )->0,
            budget,
        ),
{
}

/// Whether two rows hold the same.
pub open spec fn same_row(a: SeriesComparisonRow, b: SeriesComparisonRow) -> bool {
    &&& a.markout_5s_hist@ == b.markout_5s_hist@
    &&& (SeriesComparisonRow { markout_5s_hist: b.markout_5s_hist, ..a }) == b
}

/// Whether two lists of rows hold the same.
pub open spec fn same_rows(a: Seq<SeriesComparisonRow>, b: Seq<SeriesComparisonRow>) -> bool {
    &&& a.len() == b.len()
    &&& forall|i: int| 0 <= i < a.len() ==> same_row(#[trigger] a[i], b[i])
}

/// Whether a budget is large enough for the shares of it to be within the decimal type.
pub open spec fn budget_holds(notional: Amount, budget: Amount) -> bool {
    budget.value() > 0 ==> notional.size() + UNIT <= SAFE_UNITS * budget.value()
}

impl SeriesAggregate {
    /// The row of the comparison table, with the series' adverse-selection alarm state and the
    /// warning of too small a sample.
    pub fn to_row(
        &self,
        min_sample_windows: u32,
        taker_budget_per_window: &Amount,
        health: AdverseSelectionState,
    ) -> (r: SeriesComparisonRow)
        requires
            load(self.totals) <= SAFE_UNITS * UNIT,
            budget_holds(self.totals.taker_notional, *taker_budget_per_window),
        ensures
            is_row(self@, min_sample_windows, *taker_budget_per_window, health, r),
    {
        self.checked_row(min_sample_windows, taker_budget_per_window, health).unwrap()
    }

    /// The row of the comparison table, with the series' adverse-selection alarm state and the
    /// warning of too small a sample; `None` where a figure of it is beyond the largest decimal.
    pub fn checked_row(
        &self,
        min_sample_windows: u32,
        taker_budget_per_window: &Amount,
        health: AdverseSelectionState,
    ) -> (r: Option<SeriesComparisonRow>)
        ensures
            r is Some <==> has_row(self@, *taker_budget_per_window),
            r matches Some(row) ==> is_row(
                self@,
                min_sample_windows,
                *taker_budget_per_window,
                health,
                row,
            ),
            load(self.totals) <= SAFE_UNITS * UNIT && budget_holds(
                self.totals.taker_notional,
                *taker_budget_per_window,
            ) ==> r is Some,
    {
        proof {
            lemma_load(self.totals);
            self.totals.net_realized.lemma_size();
            self.totals.taker_notional.lemma_size();
            self.totals.excess_pnl.lemma_size();
            self.totals.settlement_remainder.lemma_size();
        }
        let pnl_per_window = match checked_per_window(
            &self.totals.net_realized,
            self.totals.windows_traded,
        ) {
            Some(q) => q,
            None => return None,
        };
        let inventory_pnl = match self.totals.excess_pnl.checked_plus(
            &self.totals.settlement_remainder,
        ) {
            Some(sum) => sum,
            None => return None,
        };
        let taker_budget_used = if !taker_budget_per_window.is_positive()
            || self.totals.windows_traded == 0 {
            None
        } else {
            match checked_per_window(&self.totals.taker_notional, self.totals.windows_traded) {
                Some(per) => match per.divided_by(taker_budget_per_window) {
                    Some(share) => Some(share),
                    None => return None,
                },
                None => return None,
            }
        };
        Some(
            SeriesComparisonRow {
                series: self.series,
                mode: self.mode,
                windows_traded: self.totals.windows_traded,
                windows_profitable: self.totals.windows_profitable,
                net_pnl: self.totals.net_realized,
                pnl_per_window,
                locked_pair_pnl: self.totals.locked_pair_pnl,
                inventory_pnl,
                fees_paid: self.totals.taker_fees.negated(),
                rebates_earned: self.totals.estimated_rebate,
                markout_5s_n: self.totals.markout_5s_n,
                markout_5s_min: self.totals.markout_5s_min,
                markout_5s_max: self.totals.markout_5s_max,
                markout_5s_hist: copy_hist(&self.markout_5s_hist),
                maker_fills: self.totals.maker_fills,
                taker_fills: self.totals.taker_fills,
                taker_notional: self.totals.taker_notional,
                taker_budget_used,
                min_sample_warning: self.totals.windows_traded < min_sample_windows,
                health,
            },
        )
    }
}

/// The figure that a column is sorted by. Fractions and means are taken by the caller.
#[derive(Clone, Copy, PartialEq, Eq, Structural, Debug)]
pub enum SortFigure {
    /// An amount of money.
    Money(Amount),
    /// A count.
    Count(u64),
    /// The share of windows that were profitable.
    FractionProfitable,
    /// The average markout, or below every value where there is none.
    AverageMarkout,
    /// A share of the taker budget, or below every value where there is none.
    BudgetShare(Option<Amount>),
    /// A small rank.
    Rank(u8),
}

/// The rank of an alarm state, the healthiest first.
pub open spec fn health_rank(state: AdverseSelectionState) -> u8 {
    match state {
        AdverseSelectionState::Healthy => 0,
        AdverseSelectionState::InsufficientSample => 1,
        AdverseSelectionState::Alarm => 2,
    }
}

impl SeriesComparisonRow {
    /// The figure that a column is sorted by.
    pub open spec fn figure(self, col: SortColumn) -> SortFigure {
        match col {
            SortColumn::NetPnl => SortFigure::Money(self.net_pnl),
            SortColumn::PnlPerWindow => SortFigure::Money(self.pnl_per_window),
            SortColumn::FractionProfitable => SortFigure::FractionProfitable,
            SortColumn::WindowsTraded => SortFigure::Count(self.windows_traded as u64),
            SortColumn::AvgMarkout5s => SortFigure::AverageMarkout,
            SortColumn::FeesPaid => SortFigure::Money(self.fees_paid),
            SortColumn::RebatesEarned => SortFigure::Money(self.rebates_earned),
            SortColumn::LockedPairPnl => SortFigure::Money(self.locked_pair_pnl),
            SortColumn::InventoryPnl => SortFigure::Money(self.inventory_pnl),
            SortColumn::TakerBudgetUsed => SortFigure::BudgetShare(self.taker_budget_used),
            SortColumn::MakerFills => SortFigure::Count(self.maker_fills),
            SortColumn::TakerFills => SortFigure::Count(self.taker_fills),
            SortColumn::Health => SortFigure::Rank(health_rank(self.health)),
        }
    }

    /// The figure that a column is sorted by.
    pub fn sort_key(&self, col: SortColumn) -> (r: SortFigure)
        ensures
            r == self.figure(col),
    {
        match col {
            SortColumn::NetPnl => SortFigure::Money(self.net_pnl),
            SortColumn::PnlPerWindow => SortFigure::Money(self.pnl_per_window),
            SortColumn::FractionProfitable => SortFigure::FractionProfitable,
            SortColumn::WindowsTraded => SortFigure::Count(self.windows_traded as u64),
            SortColumn::AvgMarkout5s => SortFigure::AverageMarkout,
            SortColumn::FeesPaid => SortFigure::Money(self.fees_paid),
            SortColumn::RebatesEarned => SortFigure::Money(self.rebates_earned),
            SortColumn::LockedPairPnl => SortFigure::Money(self.locked_pair_pnl),
            SortColumn::InventoryPnl => SortFigure::Money(self.inventory_pnl),
            SortColumn::TakerBudgetUsed => SortFigure::BudgetShare(self.taker_budget_used),
            SortColumn::MakerFills => SortFigure::Count(self.maker_fills),
            SortColumn::TakerFills => SortFigure::Count(self.taker_fills),
            SortColumn::Health => SortFigure::Rank(
                match self.health {
                    AdverseSelectionState::Healthy => 0,
                    AdverseSelectionState::InsufficientSample => 1,
                    AdverseSelectionState::Alarm => 2,
                },
            ),
        }
    }
}

/// A series comparison: the rows of a selection of days, best first.
#[derive(Clone, Debug)]
pub struct SeriesComparison {
    /// The days that the rows cover.
    pub window: ComparisonWindow,
    /// The day that the selection was made on.
    pub day: DayKey,
    /// The rows, best first.
    pub rows: Vec<SeriesComparisonRow>,
    /// The column that they are sorted by.
    pub default_sort: SortColumn,
}

/// Whether the `a`-th of some rows comes before the `b`-th: by falling key, then by series, then
/// as they stood.
pub open spec fn sorts_before(
    rows: Seq<SeriesComparisonRow>,
    keys: Seq<i64>,
    a: int,
    b: int,
) -> bool {
    ||| keys[a] > keys[b]
    ||| keys[a] == keys[b] && rows[a].series.rank_spec() < rows[b].series.rank_spec()
    ||| keys[a] == keys[b] && rows[a].series.rank_spec() == rows[b].series.rank_spec() && a < b
}

/// Whether some places are all those of a list of rows, each once, in sorted order.
pub open spec fn is_sorting(
    rows: Seq<SeriesComparisonRow>,
    keys: Seq<i64>,
    order: Seq<int>,
) -> bool {
    &&& order.len() == rows.len()
    &&& forall|j: int| 0 <= j < order.len() ==> 0 <= #[trigger] order[j] < rows.len()
    &&& forall|j: int, k: int|
        0 <= j < k < order.len() ==> sorts_before(
            rows,
            keys,
            #[trigger] order[j],
            #[trigger] order[k],
        )
}

/// Rows have one sorted order.
pub proof fn law_one_sorting(
    rows: Seq<SeriesComparisonRow>,
    keys: Seq<i64>,
    a: Seq<int>,
    b: Seq<int>,
)
    requires
        is_sorting(rows, keys, a),
        is_sorting(rows, keys, b),
    ensures
        a == b,
{
    let before = |x: int, y: int| sorts_before(rows, keys, x, y);
    assert(in_order(before, a));
    assert(in_order(before, b));
    assert(is_strict(before));
    assert forall|p: int| #[trigger] a.contains(p) <==> b.contains(p) by {
        if 0 <= p < rows.len() {
            lemma_every_place(before, a, p);
            lemma_every_place(before, b, p);
        }
    }
    law_one_order(before, a, b);
}

impl SeriesComparison {
    /// Sorts rows best first and wraps them. `keys` holds the order key of each row's value in
    /// the sort column; a larger one comes first, equal ones stand in series order.
    pub fn new(
        window: ComparisonWindow,
        day: DayKey,
        rows: Vec<SeriesComparisonRow>,
        keys: &Vec<i64>,
        sort: SortColumn,
    ) -> (r: SeriesComparison)
        requires
            keys@.len() == rows@.len(),
        ensures
            r.window == window && r.day == day && r.default_sort == sort,
            exists|order: Seq<int>|
                #![trigger is_sorting(rows@, keys@, order)]
                is_sorting(rows@, keys@, order) && r.rows@ == order.map_values(
                    |i: int| rows@[i],
                ),
    {
        let ghost all = rows@;
        let ghost mut order: Seq<int> = Seq::empty();
        let mut rest = rows;
        let mut sorted: Vec<SeriesComparisonRow> = Vec::new();
        let mut sorted_keys: Vec<i64> = Vec::new();
        let mut i: usize = 0;
        assert(rest@ =~= all.subrange(0, all.len() as int));
        while i < keys.len()
            invariant
                keys@.len() == all.len(),
                i <= keys@.len(),
                rest@ == all.subrange(i as int, all.len() as int),
                order.len() == i,
                sorted@.len() == i,
                sorted_keys@.len() == i,
                forall|j: int| 0 <= j < i ==> 0 <= #[trigger] order[j] < i,
                forall|j: int| 0 <= j < i ==> #[trigger] sorted@[j] == all[order[j]],
                forall|j: int| 0 <= j < i ==> #[trigger] sorted_keys@[j] == keys@[order[j]],
                forall|j: int, k: int|
                    0 <= j < k < i ==> sorts_before(
                        all,
                        keys@,
                        #[trigger] order[j],
                        #[trigger] order[k],
                    ),
            decreases keys.len() - i,
        {
            let row = rest.remove(0);
            let key: i64 = keys[i];
            let mut at: usize = sorted.len();
            while at > 0 && (key > sorted_keys[at - 1] || (key == sorted_keys[at - 1]
                && row.series.rank() < sorted[at - 1].series.rank()))
                invariant
                    i < all.len(),
                    keys@.len() == all.len(),
                    key == keys@[i as int],
                    row == all[i as int],
                    at <= sorted@.len(),
                    order.len() == i,
                    sorted@.len() == i,
                    sorted_keys@.len() == i,
                    forall|j: int| 0 <= j < i ==> 0 <= #[trigger] order[j] < i,
                    forall|j: int| 0 <= j < i ==> #[trigger] sorted@[j] == all[order[j]],
                    forall|j: int| 0 <= j < i ==> #[trigger] sorted_keys@[j] == keys@[order[j]],
                    forall|j: int|
                        at <= j < i ==> sorts_before(all, keys@, i as int, #[trigger] order[j]),
                decreases at,
            {
                assert(sorted@[at - 1] == all[order[at - 1]]);
                assert(sorted_keys@[at - 1] == keys@[order[at - 1]]);
                at = at - 1;
            }
            let ghost before = order;
            proof {
                if at > 0 {
                    assert(sorted@[at - 1] == all[order[at - 1]]);
                    assert(sorted_keys@[at - 1] == keys@[order[at - 1]]);
                    assert(sorts_before(all, keys@, order[at - 1], i as int));
                }
                order = order.insert(at as int, i as int);
                assert forall|j: int, k: int| 0 <= j < k < i + 1 implies sorts_before(
                    all,
                    keys@,
                    #[trigger] order[j],
                    #[trigger] order[k],
                ) by {
                    if k == at {
                        assert(order[j] == before[j]);
                        if j < at - 1 {
                            assert(sorts_before(all, keys@, before[j], before[at - 1]));
                        }
                    } else if j == at {
                        assert(order[k] == before[k - 1]);
                    } else {
                        let a = if j < at {
                            j
                        } else {
                            j - 1
                        };
                        let b = if k < at {
                            k
                        } else {
                            k - 1
                        };
                        assert(order[j] == before[a] && order[k] == before[b]);
                    }
                }
            }
            sorted.insert(at, row);
            sorted_keys.insert(at, key);
            i = i + 1;
            assert(rest@ =~= all.subrange(i as int, all.len() as int));
        }
        proof {
            assert(is_sorting(all, keys@, order));
            assert(sorted@ =~= order.map_values(|i: int| all[i]));
        }
        SeriesComparison { window, day, rows: sorted, default_sort: sort }
    }
}

/// The figures that a column is sorted by are its own, alarm states the healthiest first.
pub proof fn law_column_is_sorted_by_its_own_figure(r: SeriesComparisonRow)
    ensures
        r.figure(SortColumn::NetPnl) == SortFigure::Money(r.net_pnl),
        r.figure(SortColumn::PnlPerWindow) == SortFigure::Money(r.pnl_per_window),
        r.figure(SortColumn::FeesPaid) == SortFigure::Money(r.fees_paid),
        r.figure(SortColumn::RebatesEarned) == SortFigure::Money(r.rebates_earned),
        r.figure(SortColumn::LockedPairPnl) == SortFigure::Money(r.locked_pair_pnl),
        r.figure(SortColumn::InventoryPnl) == SortFigure::Money(r.inventory_pnl),
        r.figure(SortColumn::WindowsTraded) == SortFigure::Count(r.windows_traded as u64),
        r.figure(SortColumn::MakerFills) == SortFigure::Count(r.maker_fills),
        r.figure(SortColumn::TakerFills) == SortFigure::Count(r.taker_fills),
        r.figure(SortColumn::TakerBudgetUsed) == SortFigure::BudgetShare(r.taker_budget_used),
        r.figure(SortColumn::FractionProfitable) == SortFigure::FractionProfitable,
        r.figure(SortColumn::AvgMarkout5s) == SortFigure::AverageMarkout,
        health_rank(AdverseSelectionState::Healthy) < health_rank(
            AdverseSelectionState::InsufficientSample,
        ) < health_rank(AdverseSelectionState::Alarm),
        r.figure(SortColumn::Health) == SortFigure::Rank(health_rank(r.health)),
{
}

/// A sorting puts every row in, each once, larger keys first and equal ones in series order.
pub proof fn law_sorted_best_first(
    rows: Seq<SeriesComparisonRow>,
    keys: Seq<i64>,
    order: Seq<int>,
    j: int,
    k: int,
)
    requires
        keys.len() == rows.len(),
        is_sorting(rows, keys, order),
        0 <= j < k < order.len(),
    ensures
        keys[order[j]] >= keys[order[k]],
        keys[order[j]] == keys[order[k]] ==> rows[order[j]].series.rank_spec()
            <= rows[order[k]].series.rank_spec(),
        order[j] != order[k],
{
}

/// Every day of a selection is in one of its aggregates: their windows are the days' windows, and
/// each aggregate is of a series that some day is of.
pub proof fn law_every_day_is_aggregated(days: Seq<DailyView>)
    requires
        has_groups(days),
    ensures
        windows_in(grouped(days)) == total(days, by_windows()),
        forall|i: int|
            0 <= i < grouped(days).len() ==> exists|j: int|
                0 <= j < days.len() && (#[trigger] days[j]).series == (#[trigger] grouped(
                    days,
                )[i]).series && days[j].mode == grouped(days)[i].mode,
        days.len() > 0 ==> grouped(days).len() > 0 && grouped(days).last().series
            == days.last().series,
    decreases days.len(),
{
    let all = grouped(days);
    if days.len() > 0 {
        let rest = days.drop_last();
        let d = days.last();
        let g = grouped(rest);
        law_every_day_is_aggregated(rest);
        let last = days.len() - 1;
        assert(days[last] == d);
        if g.len() > 0 && g.last().series == d.series {
            assert(all.drop_last() =~= g.drop_last());
            assert(windows_in(g) == windows_in(g.drop_last()) + g.last().totals.windows_traded);
        } else {
            assert(all.drop_last() =~= g);
        }
        assert forall|i: int| 0 <= i < all.len() implies exists|j: int|
            0 <= j < days.len() && (#[trigger] days[j]).series == (#[trigger] all[i]).series
                && days[j].mode == all[i].mode by {
            if i < g.len() {
                assert(all[i].series == g[i].series && all[i].mode == g[i].mode);
                let j = choose|j: int|
                    0 <= j < rest.len() && (#[trigger] rest[j]).series == g[i].series
                        && rest[j].mode == g[i].mode;
                assert(days[j] == rest[j]);
            } else {
                assert(days[last].series == all[i].series);
            }
        }
    }
}

/// The windows of some aggregates.
pub open spec fn windows_in(g: Seq<AggregateView>) -> int
    decreases g.len(),
{
    if g.len() == 0 {
        0
    } else {
        windows_in(g.drop_last()) + g.last().totals.windows_traded
    }
}

/// A comparison has one row for each series at most, and they stand in series order.
pub proof fn law_one_aggregate_per_series(
    s: Days,
    window: ComparisonWindow,
    today: DayKey,
    picks: Seq<usize>,
)
    requires
        store_wf(s),
        is_selection(s, window, today, picks),
    ensures
        forall|j: int, k: int|
            0 <= j < k < grouped(picked(s, picks)).len() ==> (#[trigger] grouped(
                picked(s, picks),
            )[j]).series.rank_spec() < (#[trigger] grouped(picked(s, picks))[k]).series.rank_spec(),
{
    lemma_grouped_order(s, window, today, picks, picks.len() as int);
    assert(picks.subrange(0, picks.len() as int) =~= picks);
}

proof fn lemma_grouped_order(
    s: Days,
    window: ComparisonWindow,
    today: DayKey,
    picks: Seq<usize>,
    n: int,
)
    requires
        store_wf(s),
        is_selection(s, window, today, picks),
        0 <= n <= picks.len(),
    ensures
        ({
            let g = grouped(picked(s, picks.subrange(0, n)));
            &&& forall|j: int, k: int|
                0 <= j < k < g.len() ==> (#[trigger] g[j]).series.rank_spec() < (
                #[trigger] g[k]).series.rank_spec()
            &&& n > 0 ==> g.len() > 0 && g.last().series == s[picks[n - 1] as int].1.series
        }),
    decreases n,
{
    let days = picked(s, picks.subrange(0, n));
    if n > 0 {
        lemma_grouped_order(s, window, today, picks, n - 1);
        let before = picked(s, picks.subrange(0, n - 1));
        assert(days.drop_last() =~= before);
        let d = s[picks[n - 1] as int].1;
        assert(days.last() == d);
        let g = grouped(before);
        let all = grouped(days);
        if n > 1 {
            assert(precedes(s[picks[n - 2] as int].0, s[picks[n - 1] as int].0));
            assert(s[picks[n - 2] as int].0.series == s[picks[n - 2] as int].1.series);
            assert(s[picks[n - 1] as int].0.series == d.series);
            Series::lemma_rank_unique(g.last().series, d.series);
        } else {
            assert(before.len() == 0);
            assert(g.len() == 0);
        }
        assert forall|j: int, k: int| 0 <= j < k < all.len() implies (
        #[trigger] all[j]).series.rank_spec() < (#[trigger] all[k]).series.rank_spec() by {
            if g.len() > 0 && g.last().series == d.series {
                assert(all[j].series == g[j].series);
                assert(all[k].series == g[k].series);
            } else {
                assert(all[j] == g[j]);
                if k < g.len() {
                    assert(all[k] == g[k]);
                } else if j < g.len() - 1 {
                    assert(g[j].series.rank_spec() < g[g.len() - 1].series.rank_spec());
                }
            }
        }
    }
}

} // verus!
