//! Realized PnL by strategy and series.
//!
//! Fills are kept per window until it settles, then marked to the outcome and booked under their
//! series, strategy and UTC day.

use vstd::prelude::*;

use crate::datekey::DayKey;
use crate::decimal::{Amount, UNIT};
use crate::table::{cut, lookup, place, put, sum_by, unique_keys, Table, TableKey};
use crate::types::{Outcome, Series, WindowId};

verus! {

/// Days that a cell is kept.
pub const CELL_RETENTION_DAYS: i64 = 31;

/// Windows that may wait for their settlement.
pub const PENDING_WINDOWS_CAP: usize = 256;

/// The strategy that placed an order.
#[derive(Clone, Copy, PartialEq, Eq, Structural, Debug)]
pub enum FillDriver {
    /// The market maker.
    MakerCore,
    /// The momentum taker.
    Momentum,
    /// The late taker.
    Late,
    /// The model taker.
    Model,
}

/// A fill that waits for its window's settlement.
#[derive(Clone, Copy, PartialEq, Eq, Structural, Debug)]
pub struct DriverFill {
    /// The strategy.
    pub driver: FillDriver,
    /// The outcome bought.
    pub outcome: Outcome,
    /// Shares bought.
    pub shares: Amount,
    /// The price.
    pub price: Amount,
    /// The fee.
    pub fee: Amount,
    /// When it was filled, Unix milliseconds.
    pub ts_ms: i64,
}

/// Realized activity of one strategy in one series on one day.
#[derive(Clone, Copy, PartialEq, Eq, Structural, Debug)]
pub struct DriverCell {
    /// Realized PnL, marked to each window's outcome.
    pub realized_pnl: Amount,
    /// Fills marked.
    pub resolved_fills: u32,
    /// Fills whose outcome won.
    pub winning_fills: u32,
}

impl View for DriverCell {
    type V = DriverCell;

    open spec fn view(&self) -> DriverCell {
        *self
    }
}

/// A cell without activity.
pub open spec fn empty_cell() -> DriverCell {
    DriverCell { realized_pnl: Amount::of_parts((0, 0)), resolved_fills: 0, winning_fills: 0 }
}

impl Default for DriverCell {
    fn default() -> (r: DriverCell)
        ensures
            r == empty_cell(),
            r.realized_pnl.value() == 0,
    {
        assert(0 * crate::decimal::pow10(28) == 0);
        DriverCell { realized_pnl: Amount::new(0, 0), resolved_fills: 0, winning_fills: 0 }
    }
}

/// Where a cell stands.
#[derive(Clone, Copy, PartialEq, Eq, Structural, Debug)]
pub struct CellKey {
    /// The series.
    pub series: Series,
    /// The strategy.
    pub driver: FillDriver,
    /// The UTC day.
    pub day: DayKey,
}

impl View for CellKey {
    type V = CellKey;

    open spec fn view(&self) -> CellKey {
        *self
    }
}

impl TableKey for CellKey {
    fn same_key(&self, other: &Self) -> (r: bool) {
        *self == *other
    }
}

/// A series and a strategy.
#[derive(Clone, Copy, PartialEq, Eq, Structural, Debug)]
pub struct SeriesDriver {
    /// The series.
    pub series: Series,
    /// The strategy.
    pub driver: FillDriver,
}

impl View for SeriesDriver {
    type V = SeriesDriver;

    open spec fn view(&self) -> SeriesDriver {
        *self
    }
}

impl TableKey for SeriesDriver {
    fn same_key(&self, other: &Self) -> (r: bool) {
        *self == *other
    }
}

/// Cells by series, strategy and day.
pub type Cells = Seq<(CellKey, DriverCell)>;

/// The cell under a key, an empty one where there is none.
pub open spec fn cell_at(cells: Cells, key: CellKey) -> DriverCell {
    match lookup(cells, key) {
        Some(c) => c,
        None => empty_cell(),
    }
}

/// What a fill earned: what it pays less what it cost and the fee.
pub open spec fn mark(f: DriverFill, outcome: Outcome, zero: Amount) -> Amount {
    Amount::difference_of(
        if f.outcome == outcome {
            f.shares
        } else {
            zero
        },
        Amount::sum_of(Amount::product_of(f.shares, f.price), f.fee),
    )
}

/// Whether what a fill earned is within the decimal type at every step.
pub open spec fn has_mark(f: DriverFill, outcome: Outcome) -> bool {
    let cost = Amount::product_of(f.shares, f.price);
    &&& Amount::has_product(f.shares, f.price)
    &&& Amount::has_sum(cost, f.fee)
    &&& Amount::has_difference(
        if f.outcome == outcome {
            f.shares
        } else {
            Amount::of_parts((0, 0))
        },
        Amount::sum_of(cost, f.fee),
    )
}

/// Whether a cell can take one more fill in: its counters and its sum have room for it.
pub open spec fn cell_takes(c: DriverCell, f: DriverFill, outcome: Outcome) -> bool {
    &&& c.resolved_fills < u32::MAX
    &&& f.outcome == outcome ==> c.winning_fills < u32::MAX
    &&& has_mark(f, outcome)
    &&& Amount::has_sum(c.realized_pnl, mark(f, outcome, Amount::of_parts((0, 0))))
}

/// A cell with one more fill.
pub open spec fn cell_with(c: DriverCell, f: DriverFill, outcome: Outcome) -> DriverCell {
    DriverCell {
        realized_pnl: Amount::sum_of(c.realized_pnl, mark(f, outcome, Amount::of_parts((0, 0)))),
        resolved_fills: (c.resolved_fills + 1) as u32,
        winning_fills: if f.outcome == outcome {
            (c.winning_fills + 1) as u32
        } else {
            c.winning_fills
        },
    }
}

/// The key that a fill is booked under.
pub open spec fn key_of_fill(series: Series, f: DriverFill) -> CellKey {
    CellKey { series, driver: f.driver, day: DayKey::of_ts(f.ts_ms as int) }
}

/// Cells with the fills of a settled window booked, in the order in which they were filled.
pub open spec fn booked(
    cells: Cells,
    series: Series,
    fills: Seq<DriverFill>,
    outcome: Outcome,
) -> Cells
    decreases fills.len(),
{
    if fills.len() == 0 {
        cells
    } else {
        let before = booked(cells, series, fills.drop_last(), outcome);
        let key = key_of_fill(series, fills.last());
        put(before, key, cell_with(cell_at(before, key), fills.last(), outcome))
    }
}

/// Whether the fills of a settled window can be booked, each in its cell after those before it.
pub open spec fn has_booking(
    cells: Cells,
    series: Series,
    fills: Seq<DriverFill>,
    outcome: Outcome,
) -> bool
    decreases fills.len(),
{
    fills.len() > 0 ==> {
        let before = booked(cells, series, fills.drop_last(), outcome);
        &&& has_booking(cells, series, fills.drop_last(), outcome)
        &&& cell_takes(
            cell_at(before, key_of_fill(series, fills.last())),
            fills.last(),
            outcome,
        )
    }
}

/// Fills that can be booked can be so as far as any of them.
proof fn lemma_booking_of_first(
    cells: Cells,
    series: Series,
    fills: Seq<DriverFill>,
    outcome: Outcome,
    n: int,
)
    requires
        0 <= n <= fills.len(),
    ensures
        has_booking(cells, series, fills, outcome) ==> has_booking(
            cells,
            series,
            fills.subrange(0, n),
            outcome,
        ),
    decreases fills.len(),
{
    if n == fills.len() {
        assert(fills.subrange(0, n) =~= fills);
    } else {
        lemma_booking_of_first(cells, series, fills.drop_last(), outcome, n);
        assert(fills.drop_last().subrange(0, n) =~= fills.subrange(0, n));
    }
}

/// The latest day of some fills.
pub open spec fn newest_day(fills: Seq<DriverFill>) -> int
    decreases fills.len(),
{
    let last = crate::datekey::day_of(fills.last().ts_ms as int);
    if fills.len() <= 1 {
        last
    } else {
        crate::decimal::max_int(newest_day(fills.drop_last()), last)
    }
}

/// The cells of a day or later.
pub open spec fn kept_since(cells: Cells, cutoff: int) -> Cells
    decreases cells.len(),
{
    if cells.len() == 0 {
        Seq::empty()
    } else if cells.last().0.day.days() >= cutoff {
        kept_since(cells.drop_last(), cutoff).push(cells.last())
    } else {
        kept_since(cells.drop_last(), cutoff)
    }
}

/// Whether a cell is one that fills made: it has some, and no more of them won than there are.
pub open spec fn cell_ok(c: DriverCell) -> bool {
    &&& 1 <= c.resolved_fills
    &&& c.winning_fills <= c.resolved_fills
}

/// Whether no cell is there twice, and each is one that fills made.
pub open spec fn cells_ok(cells: Cells) -> bool {
    &&& unique_keys(cells)
    &&& forall|i: int| 0 <= i < cells.len() ==> cell_ok((#[trigger] cells[i]).1)
}

/// The fills of a cell.
pub open spec fn by_resolved() -> spec_fn((CellKey, DriverCell)) -> int {
    |e: (CellKey, DriverCell)| e.1.resolved_fills as int
}

/// The fills of all cells.
pub open spec fn fills_total(cells: Cells) -> int {
    sum_by(cells, by_resolved())
}

/// What fills wait, per window.
pub type PendingFills = Seq<(WindowId, Seq<DriverFill>)>;

/// Whether no window waits twice, and every one that does has a fill.
pub open spec fn pending_ok(pending: PendingFills) -> bool {
    &&& unique_keys(pending)
    &&& forall|i: int| #![trigger pending[i]] 0 <= i < pending.len() ==> pending[i].1.len() > 0
}

/// The fills that wait in a window.
pub open spec fn waiting(pending: PendingFills, window: WindowId) -> Seq<DriverFill> {
    match lookup(pending, window) {
        Some(f) => f,
        None => Seq::empty(),
    }
}

/// Whether a window is one of those that opened first.
pub open spec fn opened_first(pending: PendingFills, window: WindowId) -> bool {
    &&& crate::table::holds_key(pending, window)
    &&& forall|i: int|
        0 <= i < pending.len() ==> window.open_ms <= (#[trigger] pending[i]).0.open_ms
}

/// Whether `after` is what waits after one more fill: past the cap, one of the windows that
/// opened first goes.
pub open spec fn after_fill(
    before: PendingFills,
    window: WindowId,
    f: DriverFill,
    after: PendingFills,
) -> bool {
    let all = put(before, window, waiting(before, window).push(f));
    if all.len() > PENDING_WINDOWS_CAP {
        exists|oldest: WindowId| #[trigger] opened_first(all, oldest) && after == cut(all, oldest)
    } else {
        after == all
    }
}

/// However many windows never settle, no more than the cap wait.
pub proof fn law_waiting_windows_are_capped(
    before: PendingFills,
    window: WindowId,
    f: DriverFill,
    after: PendingFills,
)
    requires
        before.len() <= PENDING_WINDOWS_CAP,
        after_fill(before, window, f, after),
    ensures
        after.len() <= PENDING_WINDOWS_CAP,
{
    let all = put(before, window, waiting(before, window).push(f));
    if all.len() > PENDING_WINDOWS_CAP {
        let oldest = choose|oldest: WindowId| #[trigger]
            opened_first(all, oldest) && after == cut(all, oldest);
        assert(opened_first(all, oldest));
    }
}

/// Of the cells, those of the cutoff day and later are kept as they are, and no older one is.
pub proof fn law_only_old_cells_go(cells: Cells, cutoff: int, key: CellKey)
    requires
        unique_keys(cells),
    ensures
        unique_keys(kept_since(cells, cutoff)),
        lookup(kept_since(cells, cutoff), key) == (if key.day.days() >= cutoff {
            lookup(cells, key)
        } else {
            None
        }),
    decreases cells.len(),
{
    let kept = kept_since(cells, cutoff);
    if cells.len() > 0 {
        let rest = cells.drop_last();
        let last = cells.last();
        assert(unique_keys(rest)) by {
            assert forall|i: int, j: int|
                0 <= i < rest.len() && 0 <= j < rest.len() && (#[trigger] rest[i]).0 == (
                #[trigger] rest[j]).0 implies i == j by {
                assert(rest[i] == cells[i] && rest[j] == cells[j]);
            }
        }
        law_only_old_cells_go(rest, cutoff, key);
        law_only_old_cells_go(rest, cutoff, last.0);
        assert(lookup(rest, last.0) is None) by {
            if crate::table::holds_key(rest, last.0) {
                let p = place(rest, last.0);
                assert(rest[p] == cells[p]);
                assert(cells[cells.len() - 1].0 == cells[p].0);
            }
        }
        assert(put(rest, last.0, last.1) =~= cells);
        crate::table::lemma_put(rest, last.0, last.1);
        if last.0.day.days() >= cutoff {
            let k = kept_since(rest, cutoff);
            assert(put(k, last.0, last.1) =~= kept);
            crate::table::lemma_put(k, last.0, last.1);
        }
    }
}

/// Every fill of a settled window is booked, and each once.
pub proof fn law_every_fill_is_booked_once(
    cells: Cells,
    series: Series,
    fills: Seq<DriverFill>,
    outcome: Outcome,
)
    requires
        unique_keys(cells),
        fills_total(cells) + fills.len() <= u32::MAX,
    ensures
        unique_keys(booked(cells, series, fills, outcome)),
        fills_total(booked(cells, series, fills, outcome)) == fills_total(cells) + fills.len(),
    decreases fills.len(),
{
    if fills.len() > 0 {
        law_every_fill_is_booked_once(cells, series, fills.drop_last(), outcome);
        let before = booked(cells, series, fills.drop_last(), outcome);
        let key = key_of_fill(series, fills.last());
        let next = cell_with(cell_at(before, key), fills.last(), outcome);
        if crate::table::holds_key(before, key) {
            lemma_fills_at(before, place(before, key));
        }
        crate::table::lemma_put(before, key, next);
        lemma_fills_put(before, key, next);
    }
}

/// A fill whose outcome won earned its shares, and one whose outcome lost nothing, less what the
/// shares cost at its price and the fee; a cell counts every fill, and as won those that did.
pub proof fn law_fill_is_marked_to_the_outcome(c: DriverCell, f: DriverFill, outcome: Outcome)
    requires
        cell_takes(c, f, outcome),
    ensures
        ({
            let spent = Amount::sum_of(Amount::product_of(f.shares, f.price), f.fee);
            let nothing = Amount::of_parts((0, 0));
            let next = cell_with(c, f, outcome);
            &&& f.outcome == outcome ==> next.realized_pnl == Amount::sum_of(
                c.realized_pnl,
                Amount::difference_of(f.shares, spent),
            ) && next.winning_fills == c.winning_fills + 1
            &&& f.outcome != outcome ==> next.realized_pnl == Amount::sum_of(
                c.realized_pnl,
                Amount::difference_of(nothing, spent),
            ) && next.winning_fills == c.winning_fills
            &&& next.resolved_fills == c.resolved_fills + 1
        }),
{
}

/// Whether a fill belongs in a cell: of its series, its strategy and the UTC day of the fill.
pub open spec fn belongs(series: Series, f: DriverFill, key: CellKey) -> bool {
    &&& key.series == series
    &&& key.driver == f.driver
    &&& key.day.days() * 86_400_000 <= f.ts_ms < (key.day.days() + 1) * 86_400_000
}

/// A settlement books every fill in the cell of its series, strategy and day and in no other: a cell
/// counts those that belong there, and as won those of them whose outcome won; a cell that none
/// belongs in is as it was.
pub proof fn law_cell_counts_its_own_fills(
    cells: Cells,
    series: Series,
    fills: Seq<DriverFill>,
    outcome: Outcome,
    key: CellKey,
)
    requires
        unique_keys(cells),
        cell_at(cells, key).resolved_fills + fills.len() <= u32::MAX,
        cell_at(cells, key).winning_fills + fills.len() <= u32::MAX,
    ensures
        ({
            let after = cell_at(booked(cells, series, fills, outcome), key);
            let was = cell_at(cells, key);
            let own = fills.filter(|f: DriverFill| belongs(series, f, key));
            let won = fills.filter(
                |f: DriverFill| belongs(series, f, key) && f.outcome == outcome,
            );
            &&& unique_keys(booked(cells, series, fills, outcome))
            &&& own.len() <= fills.len() && won.len() <= fills.len()
            &&& after.resolved_fills == was.resolved_fills + own.len()
            &&& after.winning_fills == was.winning_fills + won.len()
            &&& own.len() == 0 ==> after == was
        }),
    decreases fills.len(),
{
    reveal(Seq::filter);
    if fills.len() > 0 {
        let rest = fills.drop_last();
        let f = fills.last();
        law_cell_counts_its_own_fills(cells, series, rest, outcome, key);
        let before = booked(cells, series, rest, outcome);
        let at = key_of_fill(series, f);
        let next = cell_with(cell_at(before, at), f, outcome);
        crate::table::lemma_put(before, at, next);
        DayKey::lemma_of_ts(f.ts_ms as int);
        crate::datekey::law_instant_is_within_its_day(f.ts_ms as int);
        DayKey::lemma_days_unique(key.day, at.day);
        let day = crate::datekey::day_of(f.ts_ms as int);
        let d = key.day.days();
        assert(belongs(series, f, key) <==> key == at) by {
            if d * 86_400_000 <= f.ts_ms < (d + 1) * 86_400_000 {
                assert(d == day) by (nonlinear_arith)
                    requires
                        d * 86_400_000 <= f.ts_ms < (d + 1) * 86_400_000,
                        day * 86_400_000 <= f.ts_ms < (day + 1) * 86_400_000,
                ;
            }
        }
        assert(lookup(before, key) == lookup(before, key));
    }
}

/// The latest day of some fills is that of one of them, and none is later.
pub proof fn law_newest_day_is_the_latest(fills: Seq<DriverFill>, i: int)
    requires
        0 <= i < fills.len(),
    ensures
        crate::datekey::day_of(fills[i].ts_ms as int) <= newest_day(fills),
        exists|j: int|
            0 <= j < fills.len() && crate::datekey::day_of((#[trigger] fills[j]).ts_ms as int)
                == newest_day(fills),
    decreases fills.len(),
{
    let last = fills.len() - 1;
    assert(fills[last] == fills.last());
    if fills.len() > 1 {
        let rest = fills.drop_last();
        let k = if i < last {
            i
        } else {
            0
        };
        law_newest_day_is_the_latest(rest, k);
        assert(rest[k] == fills[k]);
        let j = choose|j: int|
            0 <= j < rest.len() && crate::datekey::day_of((#[trigger] rest[j]).ts_ms as int)
                == newest_day(rest);
        assert(fills[j] == rest[j]);
    }
}

/// A settlement lets the cells go that are more than 31 days older than its newest fill, and no
/// others.
pub proof fn law_settlement_keeps_a_month(
    cells: Cells,
    series: Series,
    fills: Seq<DriverFill>,
    outcome: Outcome,
    key: CellKey,
)
    requires
        unique_keys(cells),
        fills.len() > 0,
    ensures
        lookup(settled_cells(cells, series, fills, outcome), key) == (if newest_day(fills)
            - key.day.days() <= 31 {
            lookup(booked(cells, series, fills, outcome), key)
        } else {
            None
        }),
{
    lemma_booked_unique(cells, series, fills, outcome);
    law_only_old_cells_go(booked(cells, series, fills, outcome), newest_day(fills) - 31, key);
}

proof fn lemma_booked_unique(
    cells: Cells,
    series: Series,
    fills: Seq<DriverFill>,
    outcome: Outcome,
)
    requires
        unique_keys(cells),
    ensures
        unique_keys(booked(cells, series, fills, outcome)),
    decreases fills.len(),
{
    if fills.len() > 0 {
        lemma_booked_unique(cells, series, fills.drop_last(), outcome);
        let before = booked(cells, series, fills.drop_last(), outcome);
        let key = key_of_fill(series, fills.last());
        crate::table::lemma_put(
            before,
            key,
            cell_with(cell_at(before, key), fills.last(), outcome),
        );
    }
}

/// A fill waits at the end of its window's fills, and every other window's fills wait on as they
/// were, but for one window: where more wait than may, one that opened no later than any goes.
pub proof fn law_only_a_first_window_stops_waiting(
    before: PendingFills,
    window: WindowId,
    f: DriverFill,
    after: PendingFills,
    other: WindowId,
)
    requires
        unique_keys(before),
        after_fill(before, window, f, after),
    ensures
        ({
            let all = put(before, window, waiting(before, window).push(f));
            let kept = if other == window {
                waiting(before, window).push(f)
            } else {
                waiting(before, other)
            };
            &&& all.len() <= 256 ==> waiting(after, other) == kept
            &&& waiting(after, other) == kept || waiting(after, other).len() == 0 && forall|i: int|
                0 <= i < all.len() ==> other.open_ms <= (#[trigger] all[i]).0.open_ms
        }),
{
    let all = put(before, window, waiting(before, window).push(f));
    crate::table::lemma_put(before, window, waiting(before, window).push(f));
    assert(lookup(before, other) == lookup(before, other));
    if all.len() > PENDING_WINDOWS_CAP {
        let oldest = choose|oldest: WindowId| #[trigger]
            opened_first(all, oldest) && after == cut(all, oldest);
        assert(opened_first(all, oldest));
        crate::table::lemma_cut(all, oldest);
        assert(lookup(all, other) == lookup(all, other));
    }
}

/// Realized PnL by series, strategy and day.
#[derive(Clone, Debug)]
pub struct DriverMatrix {
    pending: Table<WindowId, Vec<DriverFill>>,
    cells: Table<CellKey, DriverCell>,
}

/// What a fill earned, `None` where a step of it is beyond the largest decimal.
fn checked_mark(f: &DriverFill, outcome: Outcome) -> (r: Option<Amount>)
    ensures
        r is Some <==> has_mark(*f, outcome),
        r matches Some(earned) ==> earned == mark(*f, outcome, Amount::of_parts((0, 0))),
        r matches Some(earned) ==> crate::decimal::abs_int(
            earned.value() * UNIT - ((if f.outcome == outcome {
                f.shares.value()
            } else {
                0
            }) * UNIT - f.shares.value() * f.price.value() - f.fee.value() * UNIT),
        ) < 3 * UNIT * UNIT,
{
    proof {
        Amount::lemma_zero_value();
    }
    let payoff = if f.outcome == outcome {
        f.shares
    } else {
        Amount::new(0, 0)
    };
    match f.shares.checked_times(&f.price) {
        Some(product) => match product.checked_plus(&f.fee) {
            Some(cost) => payoff.checked_minus(&cost),
            None => None,
        },
        None => None,
    }
}

/// Booking a fill makes one more fill in the cells.
proof fn lemma_fills_put(cells: Cells, key: CellKey, next: DriverCell)
    requires
        unique_keys(cells),
        next.resolved_fills == cell_at(cells, key).resolved_fills + 1,
    ensures
        fills_total(put(cells, key, next)) == fills_total(cells) + 1,
{
    if crate::table::holds_key(cells, key) {
        let p = place(cells, key);
        assert(cells[p].0 == key);
        crate::table::lemma_sum_update(cells, p, (key, next), by_resolved());
    } else {
        crate::table::lemma_sum_push(cells, (key, next), by_resolved());
    }
}

/// A cell's fills are among those of all cells.
proof fn lemma_fills_at(cells: Cells, i: int)
    requires
        0 <= i < cells.len(),
    ensures
        cells[i].1.resolved_fills <= fills_total(cells),
        fills_total(cells) >= 0,
    decreases cells.len(),
{
    lemma_fills_nonnegative(cells.drop_last());
    if i < cells.len() - 1 {
        lemma_fills_at(cells.drop_last(), i);
        assert(cells.drop_last()[i] == cells[i]);
    }
}

proof fn lemma_fills_nonnegative(cells: Cells)
    ensures
        fills_total(cells) >= 0,
    decreases cells.len(),
{
    if cells.len() > 0 {
        lemma_fills_nonnegative(cells.drop_last());
    }
}

/// Letting old cells go leaves no cell that was not there.
proof fn lemma_kept_since(cells: Cells, cutoff: int)
    ensures
        forall|j: int|
            0 <= j < kept_since(cells, cutoff).len() ==> cells.contains(
                #[trigger] kept_since(cells, cutoff)[j],
            ),
    decreases cells.len(),
{
    if cells.len() > 0 {
        let rest = cells.drop_last();
        lemma_kept_since(rest, cutoff);
        let k = kept_since(rest, cutoff);
        let all = kept_since(cells, cutoff);
        assert forall|j: int| 0 <= j < all.len() implies cells.contains(#[trigger] all[j]) by {
            if j < k.len() {
                assert(all[j] == k[j]);
                let i = choose|i: int| 0 <= i < rest.len() && rest[i] == k[j];
                assert(cells[i] == k[j]);
            } else {
                assert(cells[cells.len() - 1] == all[j]);
            }
        }
    }
}

/// Books a fill and says whether its cell had room for it; where it had none, nothing changes.
fn book_fill(
    cells: &mut Table<CellKey, DriverCell>,
    series: Series,
    f: &DriverFill,
    outcome: Outcome,
) -> (r: bool)
    requires
        cells_ok(old(cells)@),
    ensures
        r == cell_takes(cell_at(old(cells)@, key_of_fill(series, *f)), *f, outcome),
        r ==> final(cells)@ == put(
            old(cells)@,
            key_of_fill(series, *f),
            cell_with(cell_at(old(cells)@, key_of_fill(series, *f)), *f, outcome),
        ),
        !r ==> final(cells)@ == old(cells)@,
        cells_ok(final(cells)@),
{
    let ghost cells1 = cells@;
    let day = DayKey::from_ts(f.ts_ms);
    let key = CellKey { series, driver: f.driver, day };
    let cell = match cells.get(&key) {
        Some(c) => *c,
        None => DriverCell::default(),
    };
    proof {
        if lookup(cells1, key) is Some {
            let p = place(cells1, key);
            assert(cells1[p].0 == key);
            assert(cell == cells1[p].1);
            assert(cell_ok(cells1[p].1));
        }
    }
    let next = match checked_with_fill(&cell, f, outcome) {
        Some(next) => next,
        None => return false,
    };
    proof {
        crate::table::lemma_put(cells1, key, next);
        assert(cell_ok(next));
    }
    cells.insert(key, next);
    proof {
        assert forall|j: int| 0 <= j < cells@.len() implies cell_ok((#[trigger] cells@[j]).1) by {
            if j < cells1.len() && cells@[j] == cells1[j] {
                assert(cell_ok(cells1[j].1));
            } else {
                assert(cells@[j].1 == next);
            }
        }
    }
    true
}

/// A cell with one more fill, `None` where it has no room for it.
fn checked_with_fill(cell: &DriverCell, f: &DriverFill, outcome: Outcome) -> (r: Option<DriverCell>)
    ensures
        r is Some <==> cell_takes(*cell, *f, outcome),
        r matches Some(next) ==> next == cell_with(*cell, *f, outcome),
{
    let won = f.outcome == outcome;
    if cell.resolved_fills == u32::MAX || (won && cell.winning_fills == u32::MAX) {
        return None;
    }
    match checked_mark(f, outcome) {
        Some(earned) => match cell.realized_pnl.checked_plus(&earned) {
            Some(realized_pnl) => Some(
                DriverCell {
                    realized_pnl,
                    resolved_fills: cell.resolved_fills + 1,
                    winning_fills: if won {
                        cell.winning_fills + 1
                    } else {
                        cell.winning_fills
                    },
                },
            ),
            None => None,
        },
        None => None,
    }
}

/// The cells of a day or later.
fn cells_since(cells: &Table<CellKey, DriverCell>, cutoff: i64) -> (r: Table<CellKey, DriverCell>)
    requires
        cells_ok(cells@),
    ensures
        r@ == kept_since(cells@, cutoff as int),
        cells_ok(r@),
{
    let ghost before = cells@;
    let n: usize = cells.len();
    let mut kept: Table<CellKey, DriverCell> = Table::new();
    let mut i: usize = 0;
    assert(before.subrange(0, 0) =~= Seq::empty());
    while i < n
        invariant
            cells@ == before,
            unique_keys(before),
            n == before.len(),
            i <= n,
            kept.wf(),
            kept@ == kept_since(before.subrange(0, i as int), cutoff as int),
            forall|j: int|
                0 <= j < kept@.len() ==> exists|k: int|
                    0 <= k < i && #[trigger] before[k] == #[trigger] kept@[j],
        decreases n - i,
    {
        let ghost part = before.subrange(0, i + 1);
        assert(part.drop_last() =~= before.subrange(0, i as int));
        assert(part.last() == before[i as int]);
        let key = *cells.key_at(i);
        let cell = *cells.value_at(i);
        assert(before[i as int] == (key, cell));
        if key.day.as_days() >= cutoff {
            let ghost kept0 = kept@;
            proof {
                if crate::table::holds_key(kept0, key) {
                    let p = place(kept0, key);
                    assert(kept0[p].0 == key);
                    let k = choose|k: int| 0 <= k < i && before[k] == kept0[p];
                    assert(before[k].0 == before[i as int].0);
                }
            }
            kept.insert(key, cell);
            assert(kept@ =~= kept0.push((key, cell)));
            proof {
                assert forall|j: int| 0 <= j < kept@.len() implies exists|k: int|
                    0 <= k < i + 1 && #[trigger] before[k] == #[trigger] kept@[j] by {
                    if j < kept0.len() {
                        let k = choose|k: int| 0 <= k < i && before[k] == kept0[j];
                        assert(before[k] == kept@[j]);
                    } else {
                        assert(before[i as int] == kept@[j]);
                    }
                }
            }
        }
        i = i + 1;
    }
    assert(before.subrange(0, n as int) =~= before);
    proof {
        lemma_kept_since(before, cutoff as int);
        assert forall|j: int| 0 <= j < kept@.len() implies cell_ok((#[trigger] kept@[j]).1) by {
            let i = choose|i: int| 0 <= i < before.len() && before[i] == kept@[j];
            assert(cell_ok(before[i].1));
        }
    }
    kept
}

/// No cell is older than the oldest day.
proof fn lemma_kept_all(cells: Cells)
    requires
        forall|i: int| 0 <= i < cells.len() ==> (#[trigger] cells[i]).0.day.days() >= i64::MIN,
    ensures
        kept_since(cells, i64::MIN as int) == cells,
    decreases cells.len(),
{
    if cells.len() > 0 {
        let rest = cells.drop_last();
        assert forall|i: int| 0 <= i < rest.len() implies (#[trigger] rest[i]).0.day.days()
            >= i64::MIN by {
            assert(rest[i] == cells[i]);
        }
        lemma_kept_all(rest);
        assert(cells[cells.len() - 1].0.day.days() >= i64::MIN);
        assert(rest.push(cells.last()) =~= cells);
    }
}

/// The latest day of some fills.
fn latest_day(fills: &Vec<DriverFill>) -> (r: i64)
    requires
        fills@.len() > 0,
    ensures
        r == newest_day(fills@),
        r - CELL_RETENTION_DAYS >= i64::MIN,
{
    let mut newest: i64 = DayKey::from_ts(fills[0].ts_ms).as_days();
    let mut i: usize = 1;
    assert(fills@.subrange(0, 1).last() == fills@[0]);
    while i < fills.len()
        invariant
            1 <= i <= fills@.len(),
            newest == newest_day(fills@.subrange(0, i as int)),
            newest - CELL_RETENTION_DAYS >= i64::MIN,
        decreases fills.len() - i,
    {
        let ghost part = fills@.subrange(0, i + 1);
        assert(part.drop_last() =~= fills@.subrange(0, i as int));
        assert(part.last() == fills@[i as int]);
        let day: i64 = DayKey::from_ts(fills[i].ts_ms).as_days();
        if day > newest {
            newest = day;
        }
        i = i + 1;
    }
    assert(fills@.subrange(0, i as int) =~= fills@);
    newest
}

/// The cells with the fills of a settled window booked, `None` where there is no room for one.
fn checked_booking(
    cells: &Table<CellKey, DriverCell>,
    series: Series,
    fills: &Vec<DriverFill>,
    outcome: Outcome,
) -> (r: Option<Table<CellKey, DriverCell>>)
    requires
        cells_ok(cells@),
    ensures
        r is Some <==> has_booking(cells@, series, fills@, outcome),
        r matches Some(after) ==> after@ == booked(cells@, series, fills@, outcome) && cells_ok(
            after@,
        ),
{
    let mut out = cells_since(cells, i64::MIN);
    let mut i: usize = 0;
    proof {
        assert forall|j: int| 0 <= j < cells@.len() implies (#[trigger] cells@[j]).0.day.days()
            >= i64::MIN by {
            cells@[j].0.day.lemma_days();
        }
        lemma_kept_all(cells@);
        assert(fills@.subrange(0, 0) =~= Seq::empty());
    }
    while i < fills.len()
        invariant
            i <= fills@.len(),
            cells_ok(out@),
            out@ == booked(cells@, series, fills@.subrange(0, i as int), outcome),
            has_booking(cells@, series, fills@.subrange(0, i as int), outcome),
        decreases fills.len() - i,
    {
        let ghost part = fills@.subrange(0, i + 1);
        proof {
            assert(part.drop_last() =~= fills@.subrange(0, i as int));
            assert(part.last() == fills@[i as int]);
            lemma_booking_of_first(cells@, series, fills@, outcome, i + 1);
        }
        if !book_fill(&mut out, series, &fills[i], outcome) {
            return None;
        }
        i = i + 1;
    }
    assert(fills@.subrange(0, i as int) =~= fills@);
    Some(out)
}

impl DriverMatrix {
    /// The fills that wait, per window.
    pub closed spec fn pending(&self) -> PendingFills {
        self.pending@
    }

    /// The cells.
    pub closed spec fn cells(&self) -> Cells {
        self.cells@
    }

    /// Whether the matrix is consistent.
    pub open spec fn wf(&self) -> bool {
        pending_ok(self.pending()) && cells_ok(self.cells())
    }

    /// An empty matrix.
    pub fn new() -> (r: DriverMatrix)
        ensures
            r.wf(),
            r.pending() == Seq::<(WindowId, Seq<DriverFill>)>::empty(),
            r.cells() == Seq::<(CellKey, DriverCell)>::empty(),
    {
        DriverMatrix { pending: Table::new(), cells: Table::new() }
    }

    /// Takes in a fill of a window, tagged with the strategy that placed it.
    pub fn record_fill(&mut self, window: WindowId, fill: DriverFill)
        requires
            old(self).wf(),
        ensures
            final(self).wf(),
            final(self).cells() == old(self).cells(),
            after_fill(old(self).pending(), window, fill, final(self).pending()),
    {
        let ghost before = self.pending@;
        let ghost all = put(before, window, waiting(before, window).push(fill));
        proof {
            crate::table::lemma_put(before, window, waiting(before, window).push(fill));
        }
        match self.pending.find(&window) {
            Some(i) => {
                proof {
                    crate::table::lemma_place(before, window, i as int);
                }
                let fills = self.pending.value_mut(i);
                fills.push(fill);
                assert(self.pending@ =~= all);
            },
            None => {
                let mut fills: Vec<DriverFill> = Vec::new();
                fills.push(fill);
                assert(fills@ =~= waiting(before, window).push(fill));
                self.pending.insert(window, fills);
                assert(self.pending@ =~= all);
            },
        }
        proof {
            assert forall|i: int|
                #![trigger all[i]]
                0 <= i < all.len() implies all[i].1.len() > 0 by {
                if i < before.len() && before[i].0 != window {
                    assert(all[i] == before[i]);
                } else {
                    assert(all[i].0 == window);
                    assert(all[i].1 == waiting(before, window).push(fill));
                }
            }
        }
        let n: usize = self.pending.len();
        if n > PENDING_WINDOWS_CAP {
            let mut oldest: usize = 0;
            let mut i: usize = 1;
            while i < n
                invariant
                    self.pending@ == all,
                    n == all.len(),
                    1 <= i <= n,
                    oldest < n,
                    forall|j: int|
                        0 <= j < i ==> all[oldest as int].0.open_ms <= (
                        #[trigger] all[j]).0.open_ms,
                decreases n - i,
            {
                if self.pending.key_at(i).open_ms < self.pending.key_at(oldest).open_ms {
                    oldest = i;
                }
                i = i + 1;
            }
            let ghost gone = all[oldest as int].0;
            proof {
                crate::table::lemma_place(all, gone, oldest as int);
                assert(opened_first(all, gone));
            }
            let _ = self.pending.remove_at(oldest);
            proof {
                assert(self.pending@ == cut(all, gone));
                assert forall|j: int|
                    #![trigger self.pending@[j]]
                    0 <= j < self.pending@.len() implies self.pending@[j].1.len() > 0 by {
                    assert(self.pending@[j] == all[if j < oldest {
                        j
                    } else {
                        j + 1
                    }]);
                }
            }
        }
    }

    /// Marks a settled window's fills to its outcome, books each under its series, strategy and
    /// day, and lets cells go that are more than 31 days older than the newest of these fills.
    /// A window that no fill waits in changes nothing.
    pub fn settle(&mut self, window: WindowId, outcome: Outcome)
        requires
            old(self).wf(),
            has_booking(
                old(self).cells(),
                window.series,
                waiting(old(self).pending(), window),
                outcome,
            ),
        ensures
            final(self).wf(),
            final(self).pending() == cut(old(self).pending(), window),
            final(self).cells() == settled_cells(
                old(self).cells(),
                window.series,
                waiting(old(self).pending(), window),
                outcome,
            ),
    {
        let _ = self.checked_settle(window, outcome);
    }

    /// Settles a window, as [`DriverMatrix::settle`] does, and says whether there was room for its
    /// fills; where there was none, nothing changes.
    pub fn checked_settle(&mut self, window: WindowId, outcome: Outcome) -> (r: bool)
        requires
            old(self).wf(),
        ensures
            final(self).wf(),
            r == has_booking(
                old(self).cells(),
                window.series,
                waiting(old(self).pending(), window),
                outcome,
            ),
            r ==> final(self).pending() == cut(old(self).pending(), window) && final(self).cells()
                == settled_cells(
                old(self).cells(),
                window.series,
                waiting(old(self).pending(), window),
                outcome,
            ),
            !r ==> final(self).pending() == old(self).pending() && final(self).cells() == old(
                self,
            ).cells(),
    {
        let ghost pending0 = self.pending@;
        proof {
            crate::table::lemma_cut(pending0, window);
        }
        match self.pending.find(&window) {
            None => true,
            Some(p) => {
                proof {
                    crate::table::lemma_place(pending0, window, p as int);
                }
                let fills = self.pending.value_at(p);
                assert(pending0[p as int].1 == fills@);
                let newest: i64 = latest_day(fills);
                match checked_booking(&self.cells, window.series, fills, outcome) {
                    Some(cells) => {
                        let _ = self.pending.remove_at(p);
                        assert(self.pending@ == cut(pending0, window));
                        proof {
                            assert forall|j: int|
                                #![trigger self.pending@[j]]
                                0 <= j < self.pending@.len() implies self.pending@[j].1.len()
                                > 0 by {
                                assert(self.pending@[j] == pending0[if j < p {
                                    j
                                } else {
                                    j + 1
                                }]);
                            }
                        }
                        self.cells = cells_since(&cells, newest - CELL_RETENTION_DAYS);
                        true
                    },
                    None => false,
                }
            },
        }
    }

    /// How many windows have fills that wait for a settlement.
    pub fn waiting_windows(&self) -> (r: usize)
        ensures
            r == self.pending().len(),
    {
        self.pending.len()
    }

    /// The cell of a series, a strategy and a day.
    pub fn cell(&self, series: Series, driver: FillDriver, day: DayKey) -> (r: Option<&DriverCell>)
        requires
            self.wf(),
        ensures
            match r {
                Some(c) => lookup(self.cells(), (CellKey { series, driver, day })) == Some(*c),
                None => lookup(self.cells(), (CellKey { series, driver, day })) is None,
            },
    {
        self.cells.get(&CellKey { series, driver, day })
    }

    /// The cells added up over the days, per series and strategy.
    pub fn totals(&self) -> (r: Table<SeriesDriver, DriverCell>)
        requires
            self.wf(),
            has_sums(self.cells()),
        ensures
            r.wf(),
            r@ == summed(self.cells()),
    {
        self.checked_totals().unwrap()
    }

    /// The cells added up over the days, per series and strategy; `None` where a sum is more than a
    /// counter or the decimal type holds.
    pub fn checked_totals(&self) -> (r: Option<Table<SeriesDriver, DriverCell>>)
        requires
            self.wf(),
        ensures
            r is Some <==> has_sums(self.cells()),
            r matches Some(t) ==> t.wf() && t@ == summed(self.cells()),
    {
        let ghost cells = self.cells@;
        let n: usize = self.cells.len();
        let mut out: Table<SeriesDriver, DriverCell> = Table::new();
        let mut i: usize = 0;
        assert(cells.subrange(0, 0) =~= Seq::empty());
        while i < n
            invariant
                self.cells@ == cells,
                n == cells.len(),
                i <= n,
                has_sums(cells.subrange(0, i as int)),
                out.wf(),
                out@ == summed(cells.subrange(0, i as int)),
            decreases n - i,
        {
            let ghost part = cells.subrange(0, i + 1);
            let ghost out0 = out@;
            proof {
                assert(part.drop_last() =~= cells.subrange(0, i as int));
                assert(part.last() == cells[i as int]);
                lemma_sums_of_first(cells, i + 1);
            }
            let key = *self.cells.key_at(i);
            let cell = *self.cells.value_at(i);
            assert(cells[i as int] == (key, cell));
            let sd = SeriesDriver { series: key.series, driver: key.driver };
            let acc = match out.get(&sd) {
                Some(c) => *c,
                None => DriverCell::default(),
            };
            if acc.resolved_fills > u32::MAX - cell.resolved_fills || acc.winning_fills > u32::MAX
                - cell.winning_fills {
                return None;
            }
            let realized_pnl = match acc.realized_pnl.checked_plus(&cell.realized_pnl) {
                Some(sum) => sum,
                None => return None,
            };
            let next = DriverCell {
                realized_pnl,
                resolved_fills: acc.resolved_fills + cell.resolved_fills,
                winning_fills: acc.winning_fills + cell.winning_fills,
            };
            proof {
                crate::table::lemma_put(out0, sd, next);
            }
            out.insert(sd, next);
            i = i + 1;
        }
        assert(cells.subrange(0, n as int) =~= cells);
        Some(out)
    }

    /// The cells of one day, per series and strategy.
    pub fn totals_for_day(&self, day: DayKey) -> (r: Table<SeriesDriver, DriverCell>)
        requires
            self.wf(),
        ensures
            r.wf(),
            r@ == of_day(self.cells(), day),
    {
        let ghost cells = self.cells@;
        let n: usize = self.cells.len();
        let mut out: Table<SeriesDriver, DriverCell> = Table::new();
        let mut i: usize = 0;
        assert(cells.subrange(0, 0) =~= Seq::empty());
        while i < n
            invariant
                self.cells@ == cells,
                n == cells.len(),
                i <= n,
                out.wf(),
                out@ == of_day(cells.subrange(0, i as int), day),
            decreases n - i,
        {
            let ghost part = cells.subrange(0, i + 1);
            assert(part.drop_last() =~= cells.subrange(0, i as int));
            assert(part.last() == cells[i as int]);
            let key = *self.cells.key_at(i);
            let cell = *self.cells.value_at(i);
            assert(cells[i as int] == (key, cell));
            if key.day == day {
                out.insert(SeriesDriver { series: key.series, driver: key.driver }, cell);
            }
            i = i + 1;
        }
        assert(cells.subrange(0, n as int) =~= cells);
        out
    }
}

/// The cells after a settlement: with its fills booked, and without those that are then too old.
pub open spec fn settled_cells(
    cells: Cells,
    series: Series,
    fills: Seq<DriverFill>,
    outcome: Outcome,
) -> Cells {
    if fills.len() == 0 {
        cells
    } else {
        kept_since(
            booked(cells, series, fills, outcome),
            newest_day(fills) - CELL_RETENTION_DAYS,
        )
    }
}

/// The cells added up over the days, per series and strategy.
pub open spec fn summed(cells: Cells) -> Seq<(SeriesDriver, DriverCell)>
    decreases cells.len(),
{
    if cells.len() == 0 {
        Seq::empty()
    } else {
        let before = summed(cells.drop_last());
        let (key, cell) = cells.last();
        let sd = SeriesDriver { series: key.series, driver: key.driver };
        let acc = match lookup(before, sd) {
            Some(c) => c,
            None => empty_cell(),
        };
        put(
            before,
            sd,
            DriverCell {
                realized_pnl: Amount::sum_of(acc.realized_pnl, cell.realized_pnl),
                resolved_fills: (acc.resolved_fills + cell.resolved_fills) as u32,
                winning_fills: (acc.winning_fills + cell.winning_fills) as u32,
            },
        )
    }
}

/// Whether the cells add up over the days, per series and strategy, within the counters and the
/// decimal type.
pub open spec fn has_sums(cells: Cells) -> bool
    decreases cells.len(),
{
    cells.len() > 0 ==> {
        let before = summed(cells.drop_last());
        let (key, cell) = cells.last();
        let sd = SeriesDriver { series: key.series, driver: key.driver };
        let acc = match lookup(before, sd) {
            Some(c) => c,
            None => empty_cell(),
        };
        &&& has_sums(cells.drop_last())
        &&& acc.resolved_fills + cell.resolved_fills <= u32::MAX
        &&& acc.winning_fills + cell.winning_fills <= u32::MAX
        &&& Amount::has_sum(acc.realized_pnl, cell.realized_pnl)
    }
}

/// Cells that add up do so as far as any of them.
proof fn lemma_sums_of_first(cells: Cells, n: int)
    requires
        0 <= n <= cells.len(),
    ensures
        has_sums(cells) ==> has_sums(cells.subrange(0, n)),
    decreases cells.len(),
{
    if n == cells.len() {
        assert(cells.subrange(0, n) =~= cells);
    } else {
        lemma_sums_of_first(cells.drop_last(), n);
        assert(cells.drop_last().subrange(0, n) =~= cells.subrange(0, n));
    }
}

/// The cells of one day, per series and strategy.
pub open spec fn of_day(cells: Cells, day: DayKey) -> Seq<(SeriesDriver, DriverCell)>
    decreases cells.len(),
{
    if cells.len() == 0 {
        Seq::empty()
    } else {
        let before = of_day(cells.drop_last(), day);
        let (key, cell) = cells.last();
        if key.day == day {
            put(before, SeriesDriver { series: key.series, driver: key.driver }, cell)
        } else {
            before
        }
    }
}

/// What a series' strategy comes to over the days is the sum of its cells: of their fills, and of
/// those that won. It has a total exactly where it has a cell.
pub proof fn law_totals_are_summed_over_the_days(cells: Cells, sd: SeriesDriver)
    requires
        has_sums(cells),
    ensures
        unique_keys(summed(cells)),
        ({
            let of = match lookup(summed(cells), sd) {
                Some(c) => c,
                None => empty_cell(),
            };
            &&& of.resolved_fills == sum_by(
                cells,
                |e: (CellKey, DriverCell)|
                    if e.0.series == sd.series && e.0.driver == sd.driver {
                        e.1.resolved_fills as int
                    } else {
                        0
                    },
            )
            &&& of.winning_fills == sum_by(
                cells,
                |e: (CellKey, DriverCell)|
                    if e.0.series == sd.series && e.0.driver == sd.driver {
                        e.1.winning_fills as int
                    } else {
                        0
                    },
            )
        }),
        lookup(summed(cells), sd) is Some <==> exists|i: int|
            0 <= i < cells.len() && (#[trigger] cells[i]).0.series == sd.series
                && cells[i].0.driver == sd.driver,
    decreases cells.len(),
{
    if cells.len() > 0 {
        let rest = cells.drop_last();
        law_totals_are_summed_over_the_days(rest, sd);
        let (key, cell) = cells.last();
        let at = SeriesDriver { series: key.series, driver: key.driver };
        let before = summed(rest);
        let acc = match lookup(before, at) {
            Some(c) => c,
            None => empty_cell(),
        };
        crate::table::lemma_put(
            before,
            at,
            DriverCell {
                realized_pnl: Amount::sum_of(acc.realized_pnl, cell.realized_pnl),
                resolved_fills: (acc.resolved_fills + cell.resolved_fills) as u32,
                winning_fills: (acc.winning_fills + cell.winning_fills) as u32,
            },
        );
        assert(lookup(before, sd) == lookup(before, sd));
        assert(cells[cells.len() - 1] == cells.last());
        if exists|i: int|
            0 <= i < rest.len() && (#[trigger] rest[i]).0.series == sd.series && rest[i].0.driver
                == sd.driver {
            let i = choose|i: int|
                0 <= i < rest.len() && (#[trigger] rest[i]).0.series == sd.series
                    && rest[i].0.driver == sd.driver;
            assert(cells[i] == rest[i]);
        }
        if exists|i: int|
            0 <= i < cells.len() && (#[trigger] cells[i]).0.series == sd.series
                && cells[i].0.driver == sd.driver {
            let i = choose|i: int|
                0 <= i < cells.len() && (#[trigger] cells[i]).0.series == sd.series
                    && cells[i].0.driver == sd.driver;
            if i < rest.len() {
                assert(rest[i] == cells[i]);
            }
        }
    }
}

/// The totals of a day are the cells of that day.
pub proof fn law_day_totals_are_the_cells_of_the_day(cells: Cells, day: DayKey, sd: SeriesDriver)
    requires
        unique_keys(cells),
    ensures
        unique_keys(of_day(cells, day)),
        lookup(of_day(cells, day), sd) == lookup(
            cells,
            CellKey { series: sd.series, driver: sd.driver, day },
        ),
    decreases cells.len(),
{
    if cells.len() > 0 {
        let rest = cells.drop_last();
        let (key, cell) = cells.last();
        let at = SeriesDriver { series: key.series, driver: key.driver };
        let whole = CellKey { series: sd.series, driver: sd.driver, day };
        assert forall|i: int, j: int|
            0 <= i < rest.len() && 0 <= j < rest.len() && (#[trigger] rest[i]).0 == (
            #[trigger] rest[j]).0 implies i == j by {
            assert(rest[i] == cells[i] && rest[j] == cells[j]);
        }
        law_day_totals_are_the_cells_of_the_day(rest, day, sd);
        assert(lookup(rest, key) is None) by {
            if crate::table::holds_key(rest, key) {
                let p = place(rest, key);
                assert(rest[p] == cells[p]);
                assert(cells[cells.len() - 1].0 == cells[p].0);
            }
        }
        assert(put(rest, key, cell) =~= cells);
        crate::table::lemma_put(rest, key, cell);
        assert(lookup(rest, whole) == lookup(rest, whole));
        if key.day == day {
            crate::table::lemma_put(of_day(rest, day), at, cell);
            assert(lookup(of_day(rest, day), sd) == lookup(of_day(rest, day), sd));
        }
    }
}

/// A window that has settled is not marked again: no fill waits in it any more, so that settling it
/// once more changes nothing.
pub proof fn law_settled_window_is_not_marked_again(pending: PendingFills, window: WindowId)
    requires
        unique_keys(pending),
    ensures
        waiting(cut(pending, window), window).len() == 0,
        cut(cut(pending, window), window) == cut(pending, window),
{
    crate::table::lemma_cut(pending, window);
}

} // verus!
