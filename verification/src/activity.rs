//! Live order activity: how many orders were placed, cancelled and filled of late, how many
//! rest, and how fast cancels and replacements are.

use std::collections::VecDeque;

use vstd::prelude::*;

use crate::decimal::Amount;
use crate::markout::newest;
use crate::sorting::{is_sorted_of, sort_copy};
use crate::table::{cut, lookup, put, Table, TableKey};
use crate::types::{Fill, Id, OrderState, OrderUpdate, Series, Side, WindowId};

verus! {

/// How long a counted event is kept.
pub const RETENTION_MS: i64 = 600_000;

/// The cap on each list of counted events.
pub const COUNT_CAP: usize = 16_384;

/// How many durations are kept.
pub const DURATION_CAP: usize = 1_024;

/// How soon after a cancel a new order on the same side of the window replaces it.
pub const REPLACE_PAIR_CAP_MS: i64 = 5_000;

/// One side of a window: where a cancel and its replacement meet.
#[derive(Clone, Copy, PartialEq, Eq, Structural, Debug)]
pub struct Slot {
    /// The window.
    pub window: WindowId,
    /// The side.
    pub side: Side,
}

impl View for Slot {
    type V = Slot;

    open spec fn view(&self) -> Slot {
        *self
    }
}

impl TableKey for Slot {
    fn same_key(&self, other: &Self) -> (r: bool) {
        *self == *other
    }
}

/// Whether the time from one instant to another is a number of milliseconds that `i64` holds.
pub open spec fn measurable(from: i64, to: i64) -> bool {
    i64::MIN <= to - from <= i64::MAX
}

/// Whether the instant at which the retention before another one starts is one that `i64` holds.
pub open spec fn retains(now: i64) -> bool {
    now - RETENTION_MS >= i64::MIN
}

/// A list without the events at its front that are before an instant.
pub open spec fn aged(ring: Seq<(i64, Series)>, cutoff: int) -> Seq<(i64, Series)>
    decreases ring.len(),
{
    if ring.len() > 0 && ring[0].0 < cutoff {
        aged(ring.subrange(1, ring.len() as int), cutoff)
    } else {
        ring
    }
}

/// A list of counted events with one more: old ones go, then those past the cap.
pub open spec fn count_pushed(ring: Seq<(i64, Series)>, now: i64, series: Series) -> Seq<
    (i64, Series),
> {
    newest(aged(ring.push((now, series)), now - RETENTION_MS), COUNT_CAP as nat)
}

/// A list of durations with one more, those past the cap gone.
pub open spec fn duration_pushed(ring: Seq<(Series, i64)>, series: Series, ms: i64) -> Seq<
    (Series, i64),
> {
    newest(ring.push((series, ms)), DURATION_CAP as nat)
}

/// Whether a series passes a filter.
pub open spec fn passes(filter: Option<Series>, series: Series) -> bool {
    filter is None || filter == Some(series)
}

/// How many events are at or after an instant and pass a filter.
pub open spec fn counted_since(ring: Seq<(i64, Series)>, cutoff: int, filter: Option<Series>) -> nat
    decreases ring.len(),
{
    if ring.len() == 0 {
        0
    } else {
        counted_since(ring.drop_last(), cutoff, filter) + if ring.last().0 >= cutoff && passes(
            filter,
            ring.last().1,
        ) {
            1nat
        } else {
            0nat
        }
    }
}

/// How many working orders pass a filter.
pub open spec fn resting_count(working: Seq<(Seq<char>, Series)>, filter: Option<Series>) -> nat
    decreases working.len(),
{
    if working.len() == 0 {
        0
    } else {
        resting_count(working.drop_last(), filter) + if passes(filter, working.last().1) {
            1nat
        } else {
            0nat
        }
    }
}

/// The durations that pass a filter.
pub open spec fn durations_of(ring: Seq<(Series, i64)>, filter: Option<Series>) -> Seq<i64>
    decreases ring.len(),
{
    if ring.len() == 0 {
        Seq::empty()
    } else if passes(filter, ring.last().0) {
        durations_of(ring.drop_last(), filter).push(ring.last().1)
    } else {
        durations_of(ring.drop_last(), filter)
    }
}

/// The middle of a sorted list, or half the sum of the two in the middle.
pub open spec fn median_of(sorted: Seq<i64>) -> int {
    let n = sorted.len() as int;
    if n % 2 == 1 {
        sorted[n / 2] as int
    } else {
        (sorted[n / 2 - 1] + sorted[n / 2]) / 2
    }
}

/// The item of a sorted list that 95 in a hundred are at or below: the nearest rank.
pub open spec fn p95_of(sorted: Seq<i64>) -> int {
    sorted[(95 * sorted.len() + 99) / 100 - 1] as int
}

/// A fold over order updates and fills.
#[derive(Clone, Debug)]
pub struct OrderActivity {
    placed: VecDeque<(i64, Series)>,
    cancelled: VecDeque<(i64, Series)>,
    fills: VecDeque<(i64, Series)>,
    working: Table<Id, Series>,
    cancel_requested: Table<Id, i64>,
    last_cancel: Table<Slot, i64>,
    cancel_durations: VecDeque<(Series, i64)>,
    replace_durations: VecDeque<(Series, i64)>,
}

/// What an [`OrderActivity`] holds: the times of placements, cancels and fills; the orders that
/// work; the cancels that wait for their confirmation; the last cancel of each slot; and the
/// durations measured.
pub struct ActivityView {
    pub placed: Seq<(i64, Series)>,
    pub cancelled: Seq<(i64, Series)>,
    pub fills: Seq<(i64, Series)>,
    pub working: Seq<(Seq<char>, Series)>,
    pub cancel_requested: Seq<(Seq<char>, i64)>,
    pub last_cancel: Seq<(Slot, i64)>,
    pub cancel_durations: Seq<(Series, i64)>,
    pub replace_durations: Seq<(Series, i64)>,
}

impl View for OrderActivity {
    type V = ActivityView;

    closed spec fn view(&self) -> ActivityView {
        ActivityView {
            placed: self.placed@,
            cancelled: self.cancelled@,
            fills: self.fills@,
            working: self.working@,
            cancel_requested: self.cancel_requested@,
            last_cancel: self.last_cancel@,
            cancel_durations: self.cancel_durations@,
            replace_durations: self.replace_durations@,
        }
    }
}

/// What an update says.
pub struct UpdateView {
    pub id: Seq<char>,
    pub slot: Slot,
    pub state: OrderState,
    pub price: Amount,
    pub filled_size: Amount,
    pub reject_reason: Option<Seq<char>>,
}

/// What an update says.
pub open spec fn update_view(u: OrderUpdate) -> UpdateView {
    UpdateView {
        id: u.order_id@,
        slot: Slot { window: u.window, side: u.side },
        state: u.state,
        price: u.price,
        filled_size: u.filled_size,
        reject_reason: match u.reject_reason {
            Some(t) => Some(t@),
            None => None,
        },
    }
}

impl ActivityView {
    /// A tracker that has seen nothing.
    pub open spec fn fresh() -> ActivityView {
        ActivityView {
            placed: Seq::empty(),
            cancelled: Seq::empty(),
            fills: Seq::empty(),
            working: Seq::empty(),
            cancel_requested: Seq::empty(),
            last_cancel: Seq::empty(),
            cancel_durations: Seq::empty(),
            replace_durations: Seq::empty(),
        }
    }

    /// After a cancel was requested: its time is noted.
    pub open spec fn requested(self, u: UpdateView, now: i64) -> ActivityView {
        ActivityView { cancel_requested: put(self.cancel_requested, u.id, now), ..self }
    }

    /// After a cancel: it is counted and noted for its slot, and where the request was seen, the
    /// time since is measured.
    pub open spec fn confirmed(self, u: UpdateView, now: i64) -> ActivityView {
        let series = u.slot.window.series;
        ActivityView {
            cancelled: count_pushed(self.cancelled, now, series),
            last_cancel: put(self.last_cancel, u.slot, now),
            cancel_requested: cut(self.cancel_requested, u.id),
            cancel_durations: match lookup(self.cancel_requested, u.id) {
                Some(req) if now - req >= 0 => duration_pushed(
                    self.cancel_durations,
                    series,
                    (now - req) as i64,
                ),
                _ => self.cancel_durations,
            },
            ..self
        }
    }

    /// After a placement: it is counted, and where the slot's last cancel was shortly before, the
    /// time since is measured.
    pub open spec fn placement(self, u: UpdateView, now: i64) -> ActivityView {
        let series = u.slot.window.series;
        ActivityView {
            placed: count_pushed(self.placed, now, series),
            last_cancel: cut(self.last_cancel, u.slot),
            replace_durations: match lookup(self.last_cancel, u.slot) {
                Some(c) if 0 <= now - c <= REPLACE_PAIR_CAP_MS => duration_pushed(
                    self.replace_durations,
                    series,
                    (now - c) as i64,
                ),
                _ => self.replace_durations,
            },
            ..self
        }
    }

    /// The working orders after an update.
    pub open spec fn kept_up(self, u: UpdateView) -> ActivityView {
        if u.state.is_terminal_spec() {
            ActivityView {
                working: cut(self.working, u.id),
                cancel_requested: cut(self.cancel_requested, u.id),
                ..self
            }
        } else {
            ActivityView { working: put(self.working, u.id, u.slot.window.series), ..self }
        }
    }

    /// After one update: requests and cancels are noted, an order that works for the first time
    /// is a placement, and the working orders are kept up.
    pub open spec fn after_order(self, u: UpdateView, now: i64) -> ActivityView {
        let a = match u.state {
            OrderState::PendingCancel => self.requested(u, now),
            OrderState::Canceled => self.confirmed(u, now),
            _ => self,
        };
        let b = if self.starts(u) {
            a.placement(u, now)
        } else {
            a
        };
        b.kept_up(u)
    }

    /// After one fill: it is counted.
    pub open spec fn after_fill(self, series: Series, now: i64) -> ActivityView {
        ActivityView { fills: count_pushed(self.fills, now, series), ..self }
    }

    /// Whether an update makes its order work for the first time.
    pub open spec fn starts(self, u: UpdateView) -> bool {
        lookup(self.working, u.id) is None && !u.state.is_terminal_spec()
    }

    /// Whether the times that an update leads to are ones that `i64` holds.
    pub open spec fn times(self, u: UpdateView, now: i64) -> bool {
        &&& u.state is Canceled || self.starts(u) ==> retains(now)
        &&& u.state is Canceled ==> (lookup(self.cancel_requested, u.id) matches Some(req)
            ==> measurable(req, now))
        &&& self.starts(u) ==> (lookup(self.last_cancel, u.slot) matches Some(cancel)
            ==> measurable(cancel, now))
    }

    /// Whether nothing is held under one key twice, and no duration is below zero.
    pub open spec fn wf(self) -> bool {
        &&& crate::table::unique_keys(self.working)
        &&& crate::table::unique_keys(self.cancel_requested)
        &&& crate::table::unique_keys(self.last_cancel)
        &&& none_negative(self.cancel_durations)
        &&& none_negative(self.replace_durations)
    }
}

/// Whether durations are at least zero.
pub open spec fn none_negative(ring: Seq<(Series, i64)>) -> bool {
    forall|i: int| 0 <= i < ring.len() ==> 0 <= (#[trigger] ring[i]).1
}

/// However fast events come, the lists stay within their caps, and the newest event is in its
/// list.
pub proof fn law_lists_are_capped(
    counts: Seq<(i64, Series)>,
    durations: Seq<(Series, i64)>,
    now: i64,
    series: Series,
    ms: i64,
)
    ensures
        count_pushed(counts, now, series).len() <= COUNT_CAP,
        duration_pushed(durations, series, ms).len() <= DURATION_CAP,
        count_pushed(counts, now, series).len() > 0 && count_pushed(counts, now, series).last()
            == (now, series),
        duration_pushed(durations, series, ms).last() == (series, ms),
{
    lemma_aged_last(counts.push((now, series)), now - RETENTION_MS);
}

/// The last event of a list, where it is recent, does not age away.
proof fn lemma_aged_last(ring: Seq<(i64, Series)>, cutoff: int)
    requires
        ring.len() > 0,
        ring.last().0 >= cutoff,
    ensures
        aged(ring, cutoff).len() > 0,
        aged(ring, cutoff).last() == ring.last(),
    decreases ring.len(),
{
    if ring[0].0 < cutoff {
        lemma_aged_last(ring.subrange(1, ring.len() as int), cutoff);
    }
}

/// An order rests while its last update leaves it working, and no longer.
pub proof fn law_order_rests_while_it_works(a: ActivityView, u: UpdateView, now: i64)
    requires
        crate::table::unique_keys(a.working),
    ensures
        lookup(a.after_order(u, now).working, u.id) == (if u.state.is_terminal_spec() {
            None
        } else {
            Some(u.slot.window.series)
        }),
{
    crate::table::lemma_cut(a.working, u.id);
    crate::table::lemma_put(a.working, u.id, u.slot.window.series);
}

/// Counts an event.
fn push_count(ring: &mut VecDeque<(i64, Series)>, now: i64, series: Series)
    requires
        retains(now),
    ensures
        final(ring)@ == count_pushed(old(ring)@, now, series),
{
    ring.push_back((now, series));
    let ghost pushed = ring@;
    let cutoff: i64 = now - RETENTION_MS;
    while ring.len() > 0 && ring[0].0 < cutoff
        invariant
            aged(pushed, cutoff as int) == aged(ring@, cutoff as int),
        decreases ring@.len(),
    {
        ring.pop_front();
    }
    let ghost kept = ring@;
    while ring.len() > COUNT_CAP
        invariant
            ring@.len() <= kept.len(),
            ring@ == kept.subrange(kept.len() - ring@.len(), kept.len() as int),
            ring@.len() >= COUNT_CAP || ring@ == kept,
        decreases ring@.len(),
    {
        ring.pop_front();
    }
    assert(ring@ =~= newest(kept, COUNT_CAP as nat));
}

/// Notes a duration.
fn push_dur(ring: &mut VecDeque<(Series, i64)>, series: Series, dt_ms: i64)
    requires
        none_negative(old(ring)@),
        0 <= dt_ms,
    ensures
        final(ring)@ == duration_pushed(old(ring)@, series, dt_ms),
        none_negative(final(ring)@),
{
    ring.push_back((series, dt_ms));
    let ghost kept = ring@;
    while ring.len() > DURATION_CAP
        invariant
            ring@.len() <= kept.len(),
            ring@ == kept.subrange(kept.len() - ring@.len(), kept.len() as int),
            ring@.len() >= DURATION_CAP || ring@ == kept,
        decreases ring@.len(),
    {
        ring.pop_front();
    }
    assert(ring@ =~= newest(kept, DURATION_CAP as nat));
}

/// Whether a series passes a filter.
fn lets_pass(filter: Option<Series>, series: Series) -> (r: bool)
    ensures
        r == passes(filter, series),
{
    match filter {
        None => true,
        Some(f) => f == series,
    }
}

/// How many events are at or after an instant and pass a filter.
fn count_since(
    ring: &VecDeque<(i64, Series)>,
    now: i64,
    window_ms: i64,
    filter: Option<Series>,
) -> (r: u64)
    requires
        i64::MIN <= now - window_ms <= i64::MAX,
    ensures
        r == counted_since(ring@, now - window_ms, filter),
{
    let cutoff: i64 = now - window_ms;
    let mut n: u64 = 0;
    let mut i: usize = 0;
    assert(ring@.subrange(0, 0) =~= Seq::empty());
    while i < ring.len()
        invariant
            i <= ring@.len(),
            n <= i,
            n == counted_since(ring@.subrange(0, i as int), cutoff as int, filter),
        decreases ring@.len() - i,
    {
        let ghost part = ring@.subrange(0, i + 1);
        assert(part.drop_last() =~= ring@.subrange(0, i as int));
        assert(part.last() == ring@[i as int]);
        if ring[i].0 >= cutoff && lets_pass(filter, ring[i].1) {
            n = n + 1;
        }
        i = i + 1;
    }
    assert(ring@.subrange(0, ring@.len() as int) =~= ring@);
    n
}

/// The durations that pass a filter.
fn durations(ring: &VecDeque<(Series, i64)>, filter: Option<Series>) -> (r: Vec<i64>)
    requires
        none_negative(ring@),
    ensures
        r@ == durations_of(ring@, filter),
        forall|i: int| 0 <= i < r@.len() ==> 0 <= #[trigger] r@[i],
        r@.len() <= ring@.len(),
{
    let mut out: Vec<i64> = Vec::new();
    let mut i: usize = 0;
    assert(ring@.subrange(0, 0) =~= Seq::empty());
    while i < ring.len()
        invariant
            i <= ring@.len(),
            none_negative(ring@),
            out@ == durations_of(ring@.subrange(0, i as int), filter),
            forall|j: int| 0 <= j < out@.len() ==> 0 <= #[trigger] out@[j],
            out@.len() <= i,
        decreases ring@.len() - i,
    {
        let ghost part = ring@.subrange(0, i + 1);
        assert(part.drop_last() =~= ring@.subrange(0, i as int));
        assert(part.last() == ring@[i as int]);
        if lets_pass(filter, ring[i].0) {
            out.push(ring[i].1);
        }
        i = i + 1;
    }
    assert(ring@.subrange(0, ring@.len() as int) =~= ring@);
    out
}

/// Sorting keeps a bound on the items.
proof fn lemma_sorted_bounds(sorted: Seq<i64>, s: Seq<i64>, low: int, high: int)
    requires
        is_sorted_of(sorted, s),
        forall|i: int| 0 <= i < s.len() ==> low <= #[trigger] s[i] <= high,
    ensures
        forall|i: int| 0 <= i < sorted.len() ==> low <= #[trigger] sorted[i] <= high,
{
    broadcast use vstd::seq_lib::group_to_multiset_ensures;

    assert forall|i: int| 0 <= i < sorted.len() implies low <= #[trigger] sorted[i] <= high by {
        assert(sorted.to_multiset().count(sorted[i]) > 0);
        assert(s.contains(sorted[i]));
    }
}

/// The median of the durations that pass a filter.
fn median_dur(ring: &VecDeque<(Series, i64)>, filter: Option<Series>) -> (r: Option<i64>)
    requires
        none_negative(ring@),
    ensures
        r is None <==> durations_of(ring@, filter).len() == 0,
        r matches Some(m) ==> exists|sorted: Seq<i64>|
            #![trigger median_of(sorted)]
            is_sorted_of(sorted, durations_of(ring@, filter)) && m == median_of(sorted),
{
    let v = durations(ring, filter);
    if v.len() == 0 {
        return None;
    }
    let sorted = sort_copy(&v);
    proof {
        lemma_sorted_bounds(sorted@, v@, 0, i64::MAX as int);
    }
    let n: usize = sorted.len();
    let m: i64 = if n % 2 == 1 {
        sorted[n / 2]
    } else {
        sorted[n / 2 - 1] + (sorted[n / 2] - sorted[n / 2 - 1]) / 2
    };
    assert(m == median_of(sorted@));
    Some(m)
}

/// The 95th percentile of the durations that pass a filter.
fn percentile_dur(ring: &VecDeque<(Series, i64)>, filter: Option<Series>) -> (r: Option<i64>)
    requires
        none_negative(ring@),
        ring@.len() <= DURATION_CAP,
    ensures
        r is None <==> durations_of(ring@, filter).len() == 0,
        r matches Some(m) ==> exists|sorted: Seq<i64>|
            #![trigger p95_of(sorted)]
            is_sorted_of(sorted, durations_of(ring@, filter)) && m == p95_of(sorted),
{
    let v = durations(ring, filter);
    if v.len() == 0 {
        return None;
    }
    let sorted = sort_copy(&v);
    let n: usize = sorted.len();
    let m: i64 = sorted[(95 * n + 99) / 100 - 1];
    assert(m == p95_of(sorted@));
    Some(m)
}

impl OrderActivity {
    /// Whether the tracker is consistent.
    pub open spec fn wf(&self) -> bool {
        &&& self@.wf()
        &&& self@.cancel_durations.len() <= DURATION_CAP
        &&& self@.replace_durations.len() <= DURATION_CAP
    }

    /// A tracker that has seen nothing.
    pub fn new() -> (r: OrderActivity)
        ensures
            r.wf(),
            r@ == ActivityView::fresh(),
    {
        let r = OrderActivity {
            placed: VecDeque::new(),
            cancelled: VecDeque::new(),
            fills: VecDeque::new(),
            working: Table::new(),
            cancel_requested: Table::new(),
            last_cancel: Table::new(),
            cancel_durations: VecDeque::new(),
            replace_durations: VecDeque::new(),
        };
        assert(r@.placed =~= Seq::empty());
        assert(r@.cancelled =~= Seq::empty());
        assert(r@.fills =~= Seq::empty());
        assert(r@.cancel_durations =~= Seq::empty());
        assert(r@.replace_durations =~= Seq::empty());
        r
    }

    /// Takes in one order update at a time.
    pub fn on_order(&mut self, u: &OrderUpdate, now: i64)
        requires
            old(self).wf(),
            old(self)@.times(update_view(*u), now),
        ensures
            final(self).wf(),
            final(self)@ == old(self)@.after_order(update_view(*u), now),
    {
        let ghost start = self@;
        let ghost uv = update_view(*u);
        let series = u.window.series;
        let slot = Slot { window: u.window, side: u.side };
        let was_working = self.working.contains(&u.order_id);
        match u.state {
            OrderState::PendingCancel => {
                proof {
                    crate::table::lemma_put(start.cancel_requested, uv.id, now);
                }
                self.cancel_requested.insert(u.order_id.duplicate(), now);
            },
            OrderState::Canceled => {
                push_count(&mut self.cancelled, now, series);
                self.last_cancel.insert(slot, now);
                match self.cancel_requested.remove(&u.order_id) {
                    Some(req) => {
                        let dt: i64 = now - req;
                        if dt >= 0 {
                            push_dur(&mut self.cancel_durations, series, dt);
                        }
                    },
                    None => {},
                }
            },
            _ => {},
        }
        let ghost mid = self@;
        assert(mid == match uv.state {
            OrderState::PendingCancel => start.requested(uv, now),
            OrderState::Canceled => start.confirmed(uv, now),
            _ => start,
        });
        assert(mid.wf());
        if !was_working && !u.state.is_terminal() {
            push_count(&mut self.placed, now, series);
            match self.last_cancel.remove(&slot) {
                Some(cancel_ms) => {
                    let dt: i64 = now - cancel_ms;
                    if 0 <= dt && dt <= REPLACE_PAIR_CAP_MS {
                        push_dur(&mut self.replace_durations, series, dt);
                    }
                },
                None => {},
            }
        }
        let ghost late = self@;
        assert(late.wf());
        if u.state.is_terminal() {
            let _ = self.working.remove(&u.order_id);
            let _ = self.cancel_requested.remove(&u.order_id);
        } else {
            self.working.insert(u.order_id.duplicate(), series);
        }
    }

    /// Takes in one fill at a time.
    pub fn on_fill(&mut self, fill: &Fill, now: i64)
        requires
            old(self).wf(),
            retains(now),
        ensures
            final(self).wf(),
            final(self)@ == old(self)@.after_fill(fill.window.series, now),
    {
        push_count(&mut self.fills, now, fill.window.series);
    }

    /// Orders placed within the last `window_ms`, of one series or all.
    pub fn placed_since(&self, now: i64, window_ms: i64, series: Option<Series>) -> (r: u64)
        requires
            i64::MIN <= now - window_ms <= i64::MAX,
        ensures
            r == counted_since(self@.placed, now - window_ms, series),
    {
        count_since(&self.placed, now, window_ms, series)
    }

    /// Orders cancelled within the last `window_ms`, of one series or all.
    pub fn cancelled_since(&self, now: i64, window_ms: i64, series: Option<Series>) -> (r: u64)
        requires
            i64::MIN <= now - window_ms <= i64::MAX,
        ensures
            r == counted_since(self@.cancelled, now - window_ms, series),
    {
        count_since(&self.cancelled, now, window_ms, series)
    }

    /// Fills within the last `window_ms`, of one series or all.
    pub fn fills_since(&self, now: i64, window_ms: i64, series: Option<Series>) -> (r: u64)
        requires
            i64::MIN <= now - window_ms <= i64::MAX,
        ensures
            r == counted_since(self@.fills, now - window_ms, series),
    {
        count_since(&self.fills, now, window_ms, series)
    }

    /// Orders that rest now, of one series or all.
    pub fn resting(&self, series: Option<Series>) -> (r: u64)
        ensures
            r == resting_count(self@.working, series),
    {
        let total: usize = self.working.len();
        let ghost w = self.working@;
        let mut n: u64 = 0;
        let mut i: usize = 0;
        assert(w.subrange(0, 0) =~= Seq::empty());
        while i < total
            invariant
                w == self.working@,
                total == w.len(),
                i <= total,
                n <= i,
                n == resting_count(w.subrange(0, i as int), series),
            decreases total - i,
        {
            let ghost part = w.subrange(0, i + 1);
            assert(part.drop_last() =~= w.subrange(0, i as int));
            assert(part.last() == w[i as int]);
            if lets_pass(series, *self.working.value_at(i)) {
                n = n + 1;
            }
            i = i + 1;
        }
        assert(w.subrange(0, w.len() as int) =~= w);
        n
    }

    /// The median time from a cancel's request to its confirmation.
    pub fn median_time_to_cancel_ms(&self, series: Option<Series>) -> (r: Option<i64>)
        requires
            self.wf(),
        ensures
            r is None <==> durations_of(self@.cancel_durations, series).len() == 0,
            r matches Some(m) ==> exists|sorted: Seq<i64>|
                #![trigger median_of(sorted)]
                is_sorted_of(sorted, durations_of(self@.cancel_durations, series)) && m
                    == median_of(sorted),
    {
        median_dur(&self.cancel_durations, series)
    }

    /// The median time from a cancel to its replacement.
    pub fn median_time_to_replace_ms(&self, series: Option<Series>) -> (r: Option<i64>)
        requires
            self.wf(),
        ensures
            r is None <==> durations_of(self@.replace_durations, series).len() == 0,
            r matches Some(m) ==> exists|sorted: Seq<i64>|
                #![trigger median_of(sorted)]
                is_sorted_of(sorted, durations_of(self@.replace_durations, series)) && m
                    == median_of(sorted),
    {
        median_dur(&self.replace_durations, series)
    }

    /// The 95th percentile of the time from a cancel's request to its confirmation.
    pub fn p95_time_to_cancel_ms(&self, series: Option<Series>) -> (r: Option<i64>)
        requires
            self.wf(),
        ensures
            r is None <==> durations_of(self@.cancel_durations, series).len() == 0,
            r matches Some(m) ==> exists|sorted: Seq<i64>|
                #![trigger p95_of(sorted)]
                is_sorted_of(sorted, durations_of(self@.cancel_durations, series)) && m == p95_of(
                    sorted,
                ),
    {
        percentile_dur(&self.cancel_durations, series)
    }
}

/// No matter how many updates an order gets, it is counted as placed only when it starts to work.
pub proof fn law_working_order_is_not_placed_again(a: ActivityView, u: UpdateView, now: i64)
    requires
        lookup(a.working, u.id) is Some,
    ensures
        a.after_order(u, now).placed == a.placed,
{
}

/// Where no cancel was ever requested, no time to cancel is measured.
pub proof fn law_no_request_no_time_to_cancel(a: ActivityView, u: UpdateView, now: i64)
    requires
        lookup(a.cancel_requested, u.id) is None,
    ensures
        a.after_order(u, now).cancel_durations == a.cancel_durations,
{
}

/// A cancel that was requested is timed from its request: its time to cancel is what has passed
/// since, unless the clock ran back, and the request is done with. The cancel is noted as its slot's
/// last one, and no other slot's changes.
pub proof fn law_cancel_is_timed_from_its_request(
    a: ActivityView,
    u: UpdateView,
    now: i64,
    other: Slot,
)
    requires
        a.wf(),
        u.state == OrderState::Canceled,
        a.times(u, now),
    ensures
        ({
            let after = a.after_order(u, now);
            &&& lookup(after.cancel_requested, u.id) is None
            &&& lookup(after.last_cancel, u.slot) == Some(now)
            &&& other != u.slot ==> lookup(after.last_cancel, other) == lookup(
                a.last_cancel,
                other,
            )
            &&& after.replace_durations == a.replace_durations
            &&& match lookup(a.cancel_requested, u.id) {
                Some(req) => if req <= now {
                    after.cancel_durations.last() == (u.slot.window.series, (now - req) as i64)
                } else {
                    after.cancel_durations == a.cancel_durations
                },
                None => after.cancel_durations == a.cancel_durations,
            }
        }),
{
    crate::table::lemma_cut(a.cancel_requested, u.id);
    let rest = cut(a.cancel_requested, u.id);
    crate::table::lemma_cut(rest, u.id);
    crate::table::lemma_put(a.last_cancel, u.slot, now);
    assert(lookup(a.last_cancel, other) == lookup(a.last_cancel, other));
}

/// A cancel's request is noted with its time, under its order and no other.
pub proof fn law_request_is_noted(a: ActivityView, u: UpdateView, now: i64, other: Seq<char>)
    requires
        a.wf(),
        u.state == OrderState::PendingCancel,
    ensures
        lookup(a.after_order(u, now).cancel_requested, u.id) == Some(now),
        other != u.id ==> lookup(a.after_order(u, now).cancel_requested, other) == lookup(
            a.cancel_requested,
            other,
        ),
        a.after_order(u, now).cancel_durations == a.cancel_durations,
{
    crate::table::lemma_put(a.cancel_requested, u.id, now);
    assert(lookup(a.cancel_requested, other) == lookup(a.cancel_requested, other));
}

/// A new order within five seconds of its slot's last cancel replaces what was cancelled: the time
/// since is measured. Later than that, or before it, it is not. Either way the cancel is done with.
pub proof fn law_replacement_is_timed_from_the_cancel(a: ActivityView, u: UpdateView, now: i64)
    requires
        a.wf(),
        a.starts(u),
        a.times(u, now),
    ensures
        ({
            let after = a.after_order(u, now);
            &&& lookup(after.last_cancel, u.slot) is None
            &&& match lookup(a.last_cancel, u.slot) {
                Some(c) => if c <= now && now - c <= 5_000 {
                    after.replace_durations.last() == (u.slot.window.series, (now - c) as i64)
                } else {
                    after.replace_durations == a.replace_durations
                },
                None => after.replace_durations == a.replace_durations,
            }
            &&& after.cancel_durations == a.cancel_durations
        }),
{
    crate::table::lemma_cut(a.last_cancel, u.slot);
}

/// Events are kept for ten minutes, 16,384 of a kind at most, and 1,024 durations of a kind.
pub proof fn law_what_is_kept(counts: Seq<(i64, Series)>, now: i64, series: Series, i: int)
    requires
        0 <= i < count_pushed(counts, now, series).len(),
        forall|j: int, k: int|
            0 <= j <= k < counts.len() ==> (#[trigger] counts[j]).0 <= (#[trigger] counts[k]).0,
        counts.len() > 0 ==> counts.last().0 <= now,
    ensures
        now - count_pushed(counts, now, series)[i].0 <= 10 * 60 * 1_000,
        count_pushed(counts, now, series).len() <= 16_384,
        DURATION_CAP == 1_024,
{
    let pushed = counts.push((now, series));
    assert forall|j: int, k: int| 0 <= j <= k < pushed.len() implies (#[trigger] pushed[j]).0 <= (
    #[trigger] pushed[k]).0 by {
        if k == counts.len() && j < counts.len() {
            assert(counts[j].0 <= counts[counts.len() - 1].0);
        }
    }
    lemma_aged_is_recent(pushed, now - RETENTION_MS);
}

proof fn lemma_aged_is_recent(ring: Seq<(i64, Series)>, cutoff: int)
    requires
        forall|j: int, k: int|
            0 <= j <= k < ring.len() ==> (#[trigger] ring[j]).0 <= (#[trigger] ring[k]).0,
    ensures
        forall|i: int| 0 <= i < aged(ring, cutoff).len() ==> (#[trigger] aged(ring, cutoff)[i]).0
            >= cutoff,
    decreases ring.len(),
{
    if ring.len() > 0 && ring[0].0 < cutoff {
        let rest = ring.subrange(1, ring.len() as int);
        assert forall|j: int, k: int| 0 <= j <= k < rest.len() implies (#[trigger] rest[j]).0 <= (
        #[trigger] rest[k]).0 by {
            assert(rest[j] == ring[j + 1] && rest[k] == ring[k + 1]);
        }
        lemma_aged_is_recent(rest, cutoff);
        assert(aged(ring, cutoff) == aged(rest, cutoff));
    } else if ring.len() > 0 {
        assert(aged(ring, cutoff) == ring);
        assert forall|i: int| 0 <= i < ring.len() implies (#[trigger] ring[i]).0 >= cutoff by {
            assert(ring[0].0 <= ring[i].0);
        }
    }
}

/// What is counted since an instant are the events at it or after it, of one series or of all.
pub proof fn law_counted_since_an_instant(
    ring: Seq<(i64, Series)>,
    cutoff: int,
    filter: Option<Series>,
)
    ensures
        counted_since(ring, cutoff, filter) == ring.filter(
            |e: (i64, Series)| e.0 >= cutoff && (filter matches Some(s) ==> e.1 == s),
        ).len(),
    decreases ring.len(),
{
    reveal(Seq::filter);
    if ring.len() > 0 {
        law_counted_since_an_instant(ring.drop_last(), cutoff, filter);
    }
}

/// The durations of one series, or of all, are those measured in it, in the order in which they
/// were.
pub proof fn law_durations_of_a_series(ring: Seq<(Series, i64)>, filter: Option<Series>)
    ensures
        durations_of(ring, filter) == ring.filter(
            |e: (Series, i64)| filter matches Some(s) ==> e.0 == s,
        ).map_values(|e: (Series, i64)| e.1),
    decreases ring.len(),
{
    reveal(Seq::filter);
    let own = |e: (Series, i64)| filter matches Some(s) ==> e.0 == s;
    let ms = |e: (Series, i64)| e.1;
    if ring.len() == 0 {
        assert(ring.filter(own).map_values(ms) =~= Seq::empty());
    } else {
        law_durations_of_a_series(ring.drop_last(), filter);
        let before = ring.drop_last().filter(own);
        assert(before.push(ring.last()).map_values(ms) =~= before.map_values(ms).push(
            ring.last().1,
        ));
    }
}

/// The median is in the middle: of an odd number the middle one, of an even number half the sum of
/// the two in the middle, rounded down.
pub proof fn law_median_is_in_the_middle(sorted: Seq<i64>, below: int)
    requires
        sorted.len() > 0,
        0 <= below,
        sorted.len() == 2 * below + 1 || sorted.len() == 2 * below + 2,
    ensures
        sorted.len() == 2 * below + 1 ==> median_of(sorted) == sorted[below],
        sorted.len() == 2 * below + 2 ==> 2 * median_of(sorted) <= sorted[below] + sorted[below + 1]
            <= 2 * median_of(sorted) + 1,
{
}

/// The 95th percentile is the first of the sorted durations that at least 95 in a hundred are at or
/// before.
pub proof fn law_p95_is_the_nearest_rank(sorted: Seq<i64>, rank: int)
    requires
        0 < rank <= sorted.len(),
        100 * rank >= 95 * sorted.len(),
        100 * (rank - 1) < 95 * sorted.len(),
    ensures
        p95_of(sorted) == sorted[rank - 1],
{
}

/// The first event of a list counts or not; the others count as they do without it.
proof fn lemma_count_first(ring: Seq<(i64, Series)>, cutoff: int, filter: Option<Series>)
    requires
        ring.len() > 0,
    ensures
        counted_since(ring, cutoff, filter) == counted_since(
            ring.subrange(1, ring.len() as int),
            cutoff,
            filter,
        ) + if ring[0].0 >= cutoff && passes(filter, ring[0].1) {
            1nat
        } else {
            0nat
        },
    decreases ring.len(),
{
    let rest = ring.subrange(1, ring.len() as int);
    if ring.len() == 1 {
        assert(ring.drop_last() =~= Seq::empty());
        assert(rest =~= Seq::empty());
        assert(counted_since(ring.drop_last(), cutoff, filter) == 0);
    } else {
        lemma_count_first(ring.drop_last(), cutoff, filter);
        assert(rest.drop_last() =~= ring.drop_last().subrange(1, ring.len() - 1));
        assert(rest.last() == ring.last());
    }
}

/// Events that age away are not counted over a look-back that does not reach them.
proof fn lemma_count_aged(ring: Seq<(i64, Series)>, old: int, cutoff: int, filter: Option<Series>)
    requires
        old <= cutoff,
    ensures
        counted_since(aged(ring, old), cutoff, filter) == counted_since(ring, cutoff, filter),
        aged(ring, old).len() <= ring.len(),
    decreases ring.len(),
{
    if ring.len() > 0 && ring[0].0 < old {
        lemma_count_first(ring, cutoff, filter);
        lemma_count_aged(ring.subrange(1, ring.len() as int), old, cutoff, filter);
    }
}

/// One more event counts once over a look-back of at most the retention, where its list has
/// room.
proof fn lemma_count_pushed(
    ring: Seq<(i64, Series)>,
    now: i64,
    series: Series,
    look_back: int,
    filter: Option<Series>,
)
    requires
        0 <= look_back <= RETENTION_MS,
        ring.len() < COUNT_CAP,
    ensures
        counted_since(count_pushed(ring, now, series), now - look_back, filter) == counted_since(
            ring,
            now - look_back,
            filter,
        ) + if passes(filter, series) {
            1nat
        } else {
            0nat
        },
{
    let pushed = ring.push((now, series));
    assert(pushed.drop_last() =~= ring);
    lemma_count_aged(pushed, now - RETENTION_MS, now - look_back, filter);
}

/// Over a look-back of at most the retention, where the lists have room, one update adds one to
/// the placements where it is the first that leaves its order working, one to the cancels where it
/// is a cancel, and nothing else.
pub proof fn law_one_update_counts_once(
    a: ActivityView,
    u: UpdateView,
    now: i64,
    look_back: int,
    filter: Option<Series>,
)
    requires
        0 <= look_back <= RETENTION_MS,
        a.placed.len() < COUNT_CAP,
        a.cancelled.len() < COUNT_CAP,
    ensures
        ({
            let after = a.after_order(u, now);
            let since = now - look_back;
            let counts = passes(filter, u.slot.window.series);
            let starts = a.starts(u);
            &&& counted_since(after.placed, since, filter) == counted_since(
                a.placed,
                since,
                filter,
            ) + if starts && counts {
                1nat
            } else {
                0nat
            }
            &&& counted_since(after.cancelled, since, filter) == counted_since(
                a.cancelled,
                since,
                filter,
            ) + if u.state is Canceled && counts {
                1nat
            } else {
                0nat
            }
            &&& after.fills == a.fills
        }),
{
    let series = u.slot.window.series;
    lemma_count_pushed(a.placed, now, series, look_back, filter);
    lemma_count_pushed(a.cancelled, now, series, look_back, filter);
}

/// Over a look-back of at most the retention, where the list has room, one fill adds one to the
/// fills, and nothing else.
pub proof fn law_one_fill_counts_once(
    a: ActivityView,
    series: Series,
    now: i64,
    look_back: int,
    filter: Option<Series>,
)
    requires
        0 <= look_back <= RETENTION_MS,
        a.fills.len() < COUNT_CAP,
    ensures
        counted_since(a.after_fill(series, now).fills, now - look_back, filter) == counted_since(
            a.fills,
            now - look_back,
            filter,
        ) + if passes(filter, series) {
            1nat
        } else {
            0nat
        },
        a.after_fill(series, now) == (ActivityView {
            fills: a.after_fill(series, now).fills,
            ..a
        }),
{
    lemma_count_pushed(a.fills, now, series, look_back, filter);
}

/// What a tracker takes in.
pub enum Activity {
    /// An order update at a time.
    Order(UpdateView, i64),
    /// A fill of a series at a time.
    Fill(Series, i64),
}

/// A tracker that has taken in some events since it was made.
pub open spec fn folded_over(events: Seq<Activity>) -> ActivityView
    decreases events.len(),
{
    if events.len() == 0 {
        ActivityView::fresh()
    } else {
        let before = folded_over(events.drop_last());
        match events.last() {
            Activity::Order(u, now) => before.after_order(u, now),
            Activity::Fill(series, now) => before.after_fill(series, now),
        }
    }
}

/// The latest update of an order among some events.
pub open spec fn latest_update(events: Seq<Activity>, id: Seq<char>) -> Option<UpdateView>
    decreases events.len(),
{
    if events.len() == 0 {
        None
    } else {
        match events.last() {
            Activity::Order(u, _) if u.id == id => Some(u),
            _ => latest_update(events.drop_last(), id),
        }
    }
}

/// Whether an order's latest update leaves it working, in a series that passes a filter.
pub open spec fn rests_after(events: Seq<Activity>, id: Seq<char>, filter: Option<Series>) -> bool {
    latest_update(events, id) matches Some(u) && !u.state.is_terminal_spec() && passes(
        filter,
        u.slot.window.series,
    )
}

/// The working orders after some events are those whose latest update leaves them working, each
/// with its series.
proof fn lemma_working_after(events: Seq<Activity>)
    ensures
        crate::table::unique_keys(folded_over(events).working),
        forall|id: Seq<char>|
            lookup(folded_over(events).working, id) == (match #[trigger] latest_update(events, id) {
                Some(u) => if u.state.is_terminal_spec() {
                    None
                } else {
                    Some(u.slot.window.series)
                },
                None => None,
            }),
    decreases events.len(),
{
    if events.len() > 0 {
        let rest = events.drop_last();
        lemma_working_after(rest);
        let before = folded_over(rest);
        if let Activity::Order(u, now) = events.last() {
            crate::table::lemma_cut(before.working, u.id);
            crate::table::lemma_put(before.working, u.id, u.slot.window.series);
            assert forall|id: Seq<char>|
                lookup(folded_over(events).working, id) == (match #[trigger] latest_update(
                    events,
                    id,
                ) {
                    Some(u) => if u.state.is_terminal_spec() {
                        None
                    } else {
                        Some(u.slot.window.series)
                    },
                    None => None,
                }) by {
                let earlier = latest_update(rest, id);
                assert(lookup(before.working, id) == lookup(before.working, id));
                law_order_rests_while_it_works(before, u, now);
            }
        } else {
            assert forall|id: Seq<char>| #[trigger] latest_update(events, id) == latest_update(
                rest,
                id,
            ) by {}
        }
    }
}

/// The orders of a table whose series pass a filter.
pub open spec fn resting_ids(working: Seq<(Seq<char>, Series)>, filter: Option<Series>) -> Set<
    Seq<char>,
> {
    Set::new(
        |id: Seq<char>| lookup(working, id) matches Some(s) && passes(filter, s),
    )
}

/// Counting the entries that pass counts the orders that do.
proof fn lemma_resting_ids(working: Seq<(Seq<char>, Series)>, filter: Option<Series>)
    requires
        crate::table::unique_keys(working),
    ensures
        resting_ids(working, filter).finite(),
        resting_ids(working, filter).len() == resting_count(working, filter),
    decreases working.len(),
{
    let all = resting_ids(working, filter);
    if working.len() == 0 {
        assert(all =~= Set::empty());
    } else {
        let rest = working.drop_last();
        let (id, series) = working.last();
        assert(crate::table::unique_keys(rest)) by {
            assert forall|i: int, j: int|
                0 <= i < rest.len() && 0 <= j < rest.len() && (#[trigger] rest[i]).0 == (
                #[trigger] rest[j]).0 implies i == j by {
                assert(rest[i] == working[i] && rest[j] == working[j]);
            }
        }
        assert(!crate::table::holds_key(rest, id)) by {
            if crate::table::holds_key(rest, id) {
                let p = crate::table::place(rest, id);
                assert(rest[p] == working[p]);
                assert(working[working.len() - 1].0 == working[p].0);
            }
        }
        assert(put(rest, id, series) =~= working);
        crate::table::lemma_put(rest, id, series);
        lemma_resting_ids(rest, filter);
        let before = resting_ids(rest, filter);
        assert forall|x: Seq<char>| all.contains(x) == (if x == id {
            passes(filter, series)
        } else {
            before.contains(x)
        }) by {
            assert(lookup(rest, x) == lookup(rest, x));
        }
        if passes(filter, series) {
            assert(all =~= before.insert(id));
        } else {
            assert(all =~= before);
        }
    }
}

/// After any events, the orders that rest are as many as there are whose latest update leaves them
/// working, of one series or all.
pub proof fn law_resting_counts_what_works(events: Seq<Activity>, filter: Option<Series>)
    ensures
        ({
            let ids = Set::new(|id: Seq<char>| rests_after(events, id, filter));
            &&& ids.finite()
            &&& resting_count(folded_over(events).working, filter) == ids.len()
        }),
{
    let ids = Set::new(|id: Seq<char>| rests_after(events, id, filter));
    lemma_working_after(events);
    let working = folded_over(events).working;
    lemma_resting_ids(working, filter);
    assert forall|id: Seq<char>| ids.contains(id) == resting_ids(working, filter).contains(id) by {
        let latest = latest_update(events, id);
    }
    assert(ids =~= resting_ids(working, filter));
}

/// An event of the last ten minutes stays, while fewer than 16,384 of its kind are kept, and so
/// does the one that is counted now.
pub proof fn law_recent_events_stay(counts: Seq<(i64, Series)>, now: i64, series: Series, i: int)
    requires
        0 <= i < counts.len() < 16_384,
        now - counts[i].0 <= 10 * 60 * 1_000,
    ensures
        count_pushed(counts, now, series).contains(counts[i]),
        count_pushed(counts, now, series).last() == (now, series),
{
    let pushed = counts.push((now, series));
    let cutoff = now - RETENTION_MS;
    assert(pushed[i] == counts[i]);
    lemma_aged_keeps_recent(pushed, cutoff, i);
    lemma_aged_keeps_recent(pushed, cutoff, pushed.len() - 1);
    let kept = aged(pushed, cutoff);
    assert(newest(kept, COUNT_CAP as nat) == kept);
}

proof fn lemma_aged_keeps_recent(ring: Seq<(i64, Series)>, cutoff: int, i: int)
    requires
        0 <= i < ring.len(),
        ring[i].0 >= cutoff,
    ensures
        aged(ring, cutoff).contains(ring[i]),
        0 < aged(ring, cutoff).len() <= ring.len(),
        aged(ring, cutoff).last() == ring.last(),
    decreases ring.len(),
{
    if ring[0].0 < cutoff {
        let rest = ring.subrange(1, ring.len() as int);
        assert(rest[i - 1] == ring[i]);
        lemma_aged_keeps_recent(rest, cutoff, i - 1);
        assert(aged(ring, cutoff) == aged(rest, cutoff));
    } else {
        assert(aged(ring, cutoff) == ring);
        assert(ring.contains(ring[i]));
    }
}

} // verus!
