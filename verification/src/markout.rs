//! Per-passive-fill markouts against the model's fair value.
//!
//! Each active window keeps the model's readings of the Up probability and the passive fills
//! that wait for the window's resolution. At resolution every fill is marked out: which reading
//! anchors it, and which reading, or which settled outcome, each horizon is measured against.
//! The difference of the two readings is a floating-point number and is taken by the caller.

use std::collections::VecDeque;

use vstd::prelude::*;

use crate::table::Table;
use crate::types::{Outcome, Side, WindowId};

verus! {

/// The horizons at which a passive fill's markout is measured.
#[derive(Clone, Copy, PartialEq, Eq, Structural, Debug)]
pub enum MarkoutHorizon {
    /// One second after the fill.
    S1,
    /// Five seconds after the fill: the adverse-selection signal.
    S5,
    /// Thirty seconds after the fill.
    S30,
    /// At the window's expiry.
    Expiry,
}

impl MarkoutHorizon {
    /// How long after the fill a finite horizon is.
    pub open spec fn offset_spec(self) -> Option<i64> {
        match self {
            MarkoutHorizon::S1 => Some(1_000),
            MarkoutHorizon::S5 => Some(5_000),
            MarkoutHorizon::S30 => Some(30_000),
            MarkoutHorizon::Expiry => None,
        }
    }

    /// How long after the fill a finite horizon is; `None` for the expiry.
    pub fn offset_ms(self) -> (r: Option<i64>)
        ensures
            r == self.offset_spec(),
    {
        match self {
            MarkoutHorizon::S1 => Some(1_000),
            MarkoutHorizon::S5 => Some(5_000),
            MarkoutHorizon::S30 => Some(30_000),
            MarkoutHorizon::Expiry => None,
        }
    }
}

/// Where a markout's terminal fair value comes from.
#[derive(Clone, Copy, PartialEq, Eq, Structural, Debug)]
pub enum MarkoutSource {
    /// A model reading at or before the horizon's deadline.
    Snapshot,
    /// The resolved outcome: at expiry, or at a finite horizon past the close.
    Settled,
}

/// What a markout is measured against.
#[derive(Clone, Copy, PartialEq, Eq, Structural, Debug)]
pub enum TerminalFair {
    /// A reading of the Up probability, as an order key.
    UpReading(i64),
    /// The fill's outcome won: one.
    Won,
    /// The fill's outcome lost: zero.
    Lost,
}

/// One markout: what it is measured against, and where that comes from.
#[derive(Clone, Copy, PartialEq, Eq, Structural, Debug)]
pub struct MarkoutPoint {
    /// What the markout is measured against.
    pub terminal: TerminalFair,
    /// Where that comes from.
    pub source: MarkoutSource,
}

/// A passive fill's markouts, given once its window resolves.
#[derive(Clone, Copy, PartialEq, Eq, Structural, Debug)]
pub struct FillMarkout {
    /// The fill's window.
    pub window: WindowId,
    /// The outcome bought or sold.
    pub outcome: Outcome,
    /// Our side.
    pub side: Side,
    /// When it was filled, Unix milliseconds.
    pub ts_fill_ms: i64,
    /// The reading of the Up probability that anchors the fill, as an order key.
    pub anchor: i64,
    /// One second after the fill.
    pub s1: MarkoutPoint,
    /// Five seconds after the fill.
    pub s5: MarkoutPoint,
    /// Thirty seconds after the fill.
    pub s30: MarkoutPoint,
    /// At expiry.
    pub expiry: MarkoutPoint,
}

impl FillMarkout {
    /// The markout at a horizon.
    pub open spec fn at_spec(self, horizon: MarkoutHorizon) -> MarkoutPoint {
        match horizon {
            MarkoutHorizon::S1 => self.s1,
            MarkoutHorizon::S5 => self.s5,
            MarkoutHorizon::S30 => self.s30,
            MarkoutHorizon::Expiry => self.expiry,
        }
    }

    /// The markout at a horizon.
    pub fn at(&self, horizon: MarkoutHorizon) -> (r: MarkoutPoint)
        ensures
            r == self.at_spec(horizon),
    {
        match horizon {
            MarkoutHorizon::S1 => self.s1,
            MarkoutHorizon::S5 => self.s5,
            MarkoutHorizon::S30 => self.s30,
            MarkoutHorizon::Expiry => self.expiry,
        }
    }
}

/// A passive fill that waits for its window's resolution.
#[derive(Clone, Copy, PartialEq, Eq, Structural, Debug)]
pub struct PendingMarkout {
    /// The outcome bought or sold.
    pub outcome: Outcome,
    /// Our side.
    pub side: Side,
    /// When it was filled, Unix milliseconds.
    pub ts_fill_ms: i64,
}

/// A window's readings and waiting fills.
#[derive(Clone, Debug)]
struct WindowMarkout {
    snaps: VecDeque<(i64, i64)>,
    pending: Vec<PendingMarkout>,
}

/// A window's readings, as time and order key, in the order in which they came, and its waiting
/// fills in the order in which they were filled.
pub struct WindowMarkoutView {
    pub snaps: Seq<(i64, i64)>,
    pub pending: Seq<PendingMarkout>,
}

impl View for WindowMarkout {
    type V = WindowMarkoutView;

    closed spec fn view(&self) -> WindowMarkoutView {
        WindowMarkoutView { snaps: self.snaps@, pending: self.pending@ }
    }
}

/// A window with neither readings nor fills.
pub open spec fn fresh_window() -> WindowMarkoutView {
    WindowMarkoutView { snaps: Seq::empty(), pending: Seq::empty() }
}

/// The last `n` items.
pub open spec fn newest<A>(s: Seq<A>, n: nat) -> Seq<A> {
    if s.len() > n {
        s.subrange(s.len() - n, s.len() as int)
    } else {
        s
    }
}

/// The latest reading, in the order in which they came, that is at or before a deadline: the
/// last observation carried forward.
pub open spec fn latest_at(snaps: Seq<(i64, i64)>, deadline: int) -> Option<i64>
    decreases snaps.len(),
{
    if snaps.len() == 0 {
        None
    } else if snaps.last().0 <= deadline {
        Some(snaps.last().1)
    } else {
        latest_at(snaps.drop_last(), deadline)
    }
}

/// `ts + offset`, held at the largest instant.
pub open spec fn deadline_of(ts: int, offset: int) -> int {
    if ts + offset > i64::MAX {
        i64::MAX as int
    } else {
        ts + offset
    }
}

/// The settled fair value of an outcome.
pub open spec fn settled_fair(outcome: Outcome, winner: Outcome) -> TerminalFair {
    if outcome == winner {
        TerminalFair::Won
    } else {
        TerminalFair::Lost
    }
}

/// The markout of a fill at a finite horizon: against the settled outcome where the deadline is
/// past the close, else against the latest reading at or before the deadline, and against the
/// anchor where there is none.
pub open spec fn point_at(
    snaps: Seq<(i64, i64)>,
    p: PendingMarkout,
    anchor: i64,
    offset: int,
    winner: Outcome,
    close_ms: int,
) -> MarkoutPoint {
    let deadline = deadline_of(p.ts_fill_ms as int, offset);
    if deadline > close_ms {
        MarkoutPoint {
            terminal: settled_fair(p.outcome, winner),
            source: MarkoutSource::Settled,
        }
    } else {
        MarkoutPoint {
            terminal: TerminalFair::UpReading(
                match latest_at(snaps, deadline) {
                    Some(k) => k,
                    None => anchor,
                },
            ),
            source: MarkoutSource::Snapshot,
        }
    }
}

/// A fill's markouts, or `None` where no reading came at or before the fill.
pub open spec fn marked_fill(
    window: WindowId,
    snaps: Seq<(i64, i64)>,
    p: PendingMarkout,
    winner: Outcome,
    close_ms: int,
) -> Option<FillMarkout> {
    match latest_at(snaps, p.ts_fill_ms as int) {
        None => None,
        Some(anchor) => Some(
            FillMarkout {
                window,
                outcome: p.outcome,
                side: p.side,
                ts_fill_ms: p.ts_fill_ms,
                anchor,
                s1: point_at(snaps, p, anchor, 1_000, winner, close_ms),
                s5: point_at(snaps, p, anchor, 5_000, winner, close_ms),
                s30: point_at(snaps, p, anchor, 30_000, winner, close_ms),
                expiry: MarkoutPoint {
                    terminal: settled_fair(p.outcome, winner),
                    source: MarkoutSource::Settled,
                },
            },
        ),
    }
}

/// The markouts of a window's fills, in fill order, without those that have no anchor.
pub open spec fn marked(
    window: WindowId,
    snaps: Seq<(i64, i64)>,
    pending: Seq<PendingMarkout>,
    winner: Outcome,
    close_ms: int,
) -> Seq<FillMarkout>
    decreases pending.len(),
{
    if pending.len() == 0 {
        Seq::empty()
    } else {
        let before = marked(window, snaps, pending.drop_last(), winner, close_ms);
        match marked_fill(window, snaps, pending.last(), winner, close_ms) {
            Some(m) => before.push(m),
            None => before,
        }
    }
}

/// Nothing is looked up ahead of time: readings that come in with a time after a deadline change
/// nothing about what is read at it.
pub proof fn law_no_lookahead(snaps: Seq<(i64, i64)>, later: Seq<(i64, i64)>, deadline: int)
    requires
        forall|i: int| 0 <= i < later.len() ==> (#[trigger] later[i]).0 > deadline,
    ensures
        latest_at(snaps + later, deadline) == latest_at(snaps, deadline),
    decreases later.len(),
{
    if later.len() == 0 {
        assert(snaps + later =~= snaps);
    } else {
        assert((snaps + later).last() == later.last());
        assert((snaps + later).drop_last() =~= snaps + later.drop_last());
        law_no_lookahead(snaps, later.drop_last(), deadline);
    }
}

/// Every fill of a resolved window is either marked out or dropped for want of an anchor.
pub proof fn law_marked_or_dropped(
    window: WindowId,
    snaps: Seq<(i64, i64)>,
    pending: Seq<PendingMarkout>,
    winner: Outcome,
    close_ms: int,
)
    ensures
        marked(window, snaps, pending, winner, close_ms).len() + dropped(snaps, pending)
            == pending.len(),
    decreases pending.len(),
{
    if pending.len() > 0 {
        law_marked_or_dropped(window, snaps, pending.drop_last(), winner, close_ms);
    }
}

/// How many fills have no reading at or before them.
pub open spec fn dropped(snaps: Seq<(i64, i64)>, pending: Seq<PendingMarkout>) -> nat
    decreases pending.len(),
{
    if pending.len() == 0 {
        0
    } else {
        dropped(snaps, pending.drop_last()) + if latest_at(
            snaps,
            pending.last().ts_fill_ms as int,
        ) is None {
            1nat
        } else {
            0nat
        }
    }
}

/// Keeps model readings and passive fills per active window, and marks the fills out at the
/// window's resolution.
#[derive(Clone, Debug)]
pub struct MarkoutEngine {
    ring_max: usize,
    windows: Table<WindowId, WindowMarkout>,
    no_anchor_dropped: u64,
}

/// What a [`MarkoutEngine`] holds.
pub struct MarkoutView {
    pub ring_max: nat,
    pub windows: Seq<(WindowId, WindowMarkoutView)>,
    pub no_anchor_dropped: nat,
}

impl View for MarkoutEngine {
    type V = MarkoutView;

    closed spec fn view(&self) -> MarkoutView {
        MarkoutView {
            ring_max: self.ring_max as nat,
            windows: self.windows@,
            no_anchor_dropped: self.no_anchor_dropped as nat,
        }
    }
}

impl MarkoutView {
    /// Whether no window is there twice, and the ring is of at least one.
    pub open spec fn wf(self) -> bool {
        crate::table::unique_keys(self.windows) && self.ring_max >= 1
    }

    /// The state of a window, a fresh one where there is none.
    pub open spec fn window(self, window: WindowId) -> WindowMarkoutView {
        match crate::table::lookup(self.windows, window) {
            Some(w) => w,
            None => fresh_window(),
        }
    }

    /// After a reading of a window.
    pub open spec fn with_snapshot(self, window: WindowId, ts: i64, fair_up: i64) -> MarkoutView {
        let w = self.window(window);
        MarkoutView {
            windows: crate::table::put(
                self.windows,
                window,
                WindowMarkoutView { snaps: newest(w.snaps.push((ts, fair_up)), self.ring_max), ..w },
            ),
            ..self
        }
    }

    /// After a passive fill in a window.
    pub open spec fn with_fill(self, window: WindowId, p: PendingMarkout) -> MarkoutView {
        let w = self.window(window);
        MarkoutView {
            windows: crate::table::put(
                self.windows,
                window,
                WindowMarkoutView { pending: w.pending.push(p), ..w },
            ),
            ..self
        }
    }

    /// After a window's resolution.
    pub open spec fn without_window(self, window: WindowId) -> MarkoutView {
        let w = self.window(window);
        MarkoutView {
            windows: crate::table::cut(self.windows, window),
            no_anchor_dropped: self.no_anchor_dropped + dropped(w.snaps, w.pending),
            ..self
        }
    }
}

/// A deadline is read where some reading came at or before it, and nowhere else.
pub proof fn law_read_where_a_reading_came(snaps: Seq<(i64, i64)>, deadline: int)
    ensures
        latest_at(snaps, deadline) is Some <==> exists|i: int|
            0 <= i < snaps.len() && (#[trigger] snaps[i]).0 <= deadline,
    decreases snaps.len(),
{
    if snaps.len() > 0 {
        let rest = snaps.drop_last();
        law_read_where_a_reading_came(rest, deadline);
        assert(snaps[snaps.len() - 1] == snaps.last());
        if exists|i: int| 0 <= i < rest.len() && (#[trigger] rest[i]).0 <= deadline {
            let i = choose|i: int| 0 <= i < rest.len() && (#[trigger] rest[i]).0 <= deadline;
            assert(snaps[i] == rest[i]);
        }
        if exists|i: int| 0 <= i < snaps.len() && (#[trigger] snaps[i]).0 <= deadline {
            let i = choose|i: int| 0 <= i < snaps.len() && (#[trigger] snaps[i]).0 <= deadline;
            if i < rest.len() {
                assert(rest[i] == snaps[i]);
            }
        }
    }
}

/// The markouts are those of the fills that have an anchor, and stand in fill order.
pub proof fn law_marked_in_fill_order(
    window: WindowId,
    snaps: Seq<(i64, i64)>,
    pending: Seq<PendingMarkout>,
    winner: Outcome,
    close_ms: int,
)
    ensures
        marked(window, snaps, pending, winner, close_ms) == pending.filter(
            |p: PendingMarkout| latest_at(snaps, p.ts_fill_ms as int) is Some,
        ).map_values(
            |p: PendingMarkout| marked_fill(window, snaps, p, winner, close_ms)->0,
        ),
    decreases pending.len(),
{
    reveal(Seq::filter);
    let anchored = |p: PendingMarkout| latest_at(snaps, p.ts_fill_ms as int) is Some;
    let mark = |p: PendingMarkout| marked_fill(window, snaps, p, winner, close_ms)->0;
    if pending.len() == 0 {
        assert(pending.filter(anchored).map_values(mark) =~= Seq::empty());
    } else {
        law_marked_in_fill_order(window, snaps, pending.drop_last(), winner, close_ms);
        let before = pending.drop_last().filter(anchored);
        assert(before.push(pending.last()).map_values(mark) =~= before.map_values(mark).push(
            mark(pending.last()),
        ));
    }
}

/// A resolution accounts for every fill of its window, which it marks out or drops; it leaves the
/// other windows as they are, and nothing that a second one would mark out.
pub proof fn law_resolution_accounts_for_its_window(
    v: MarkoutView,
    window: WindowId,
    winner: Outcome,
    close_ms: int,
    other: WindowId,
)
    requires
        v.wf(),
    ensures
        ({
            let w = v.window(window);
            let after = v.without_window(window);
            &&& after.wf()
            &&& marked(window, w.snaps, w.pending, winner, close_ms).len()
                + after.no_anchor_dropped - v.no_anchor_dropped == w.pending.len()
            &&& other != window ==> after.window(other) == v.window(other)
            &&& after.window(window) == fresh_window()
            &&& after.without_window(window) == after
            &&& marked(
                window,
                after.window(window).snaps,
                after.window(window).pending,
                winner,
                close_ms,
            ).len() == 0
        }),
{
    let w = v.window(window);
    law_marked_or_dropped(window, w.snaps, w.pending, winner, close_ms);
    crate::table::lemma_cut(v.windows, window);
    let after = v.without_window(window);
    assert(crate::table::lookup(v.windows, other) == crate::table::lookup(v.windows, other));
    crate::table::lemma_cut(after.windows, window);
    assert(!crate::table::holds_key(after.windows, window));
}

/// Whether a key is the reading that stood at an instant: the last one that came with a time at or
/// before it.
pub open spec fn stood_at(snaps: Seq<(i64, i64)>, instant: int, key: i64) -> bool {
    exists|i: int|
        0 <= i < snaps.len() && (#[trigger] snaps[i]).0 <= instant && snaps[i].1 == key && (forall|
            j: int,
        |
            i < j < snaps.len() ==> (#[trigger] snaps[j]).0 > instant)
}

/// What is read at a deadline is the reading that stood then.
pub proof fn law_reading_stood_at_the_deadline(snaps: Seq<(i64, i64)>, deadline: int)
    ensures
        latest_at(snaps, deadline) matches Some(k) ==> stood_at(snaps, deadline, k),
    decreases snaps.len(),
{
    if snaps.len() > 0 {
        let rest = snaps.drop_last();
        let last = snaps.len() - 1;
        law_reading_stood_at_the_deadline(rest, deadline);
        if snaps.last().0 <= deadline {
            assert(snaps[last].0 <= deadline);
        } else if latest_at(rest, deadline) is Some {
            let k = latest_at(rest, deadline)->0;
            let i = choose|i: int|
                0 <= i < rest.len() && (#[trigger] rest[i]).0 <= deadline && rest[i].1 == k && (
                forall|j: int| i < j < rest.len() ==> (#[trigger] rest[j]).0 > deadline);
            assert(snaps[i] == rest[i]);
            assert forall|j: int| i < j < snaps.len() implies (#[trigger] snaps[j]).0 > deadline by {
                if j < last {
                    assert(rest[j] == snaps[j]);
                }
            }
        }
    }
}

/// Whether a point is the markout of a fill so long after it: against the settled outcome where
/// that is past the close, else against the reading that stood then. The instant is held at the
/// largest one.
pub open spec fn measured_after(
    point: MarkoutPoint,
    m: FillMarkout,
    delay_ms: int,
    snaps: Seq<(i64, i64)>,
    winner: Outcome,
    close_ms: int,
) -> bool {
    let instant = if m.ts_fill_ms + delay_ms > i64::MAX {
        i64::MAX as int
    } else {
        m.ts_fill_ms + delay_ms
    };
    if instant > close_ms {
        &&& point.source == MarkoutSource::Settled
        &&& point.terminal == (if m.outcome == winner {
            TerminalFair::Won
        } else {
            TerminalFair::Lost
        })
    } else {
        &&& point.source == MarkoutSource::Snapshot
        &&& point.terminal matches TerminalFair::UpReading(k) && stood_at(snaps, instant, k)
    }
}

/// Whether a fill's markouts are anchored at the reading that stood at the fill and measured one
/// second, five seconds and thirty seconds after it and at the settled outcome.
pub open spec fn measured_at_each_horizon(
    m: FillMarkout,
    snaps: Seq<(i64, i64)>,
    winner: Outcome,
    close_ms: int,
) -> bool {
    &&& stood_at(snaps, m.ts_fill_ms as int, m.anchor)
    &&& measured_after(m.at_spec(MarkoutHorizon::S1), m, 1_000, snaps, winner, close_ms)
    &&& measured_after(m.at_spec(MarkoutHorizon::S5), m, 5_000, snaps, winner, close_ms)
    &&& measured_after(m.at_spec(MarkoutHorizon::S30), m, 30_000, snaps, winner, close_ms)
    &&& m.at_spec(MarkoutHorizon::Expiry).source == MarkoutSource::Settled
    &&& m.at_spec(MarkoutHorizon::Expiry).terminal == (if m.outcome == winner {
        TerminalFair::Won
    } else {
        TerminalFair::Lost
    })
}

/// The finite horizons are one, five and thirty seconds; the expiry has no delay of its own.
pub proof fn law_horizons()
    ensures
        forall|h: MarkoutHorizon| #[trigger]
            h.offset_spec() == (match h {
                MarkoutHorizon::S1 => Some(1_000i64),
                MarkoutHorizon::S5 => Some(5_000i64),
                MarkoutHorizon::S30 => Some(30_000i64),
                MarkoutHorizon::Expiry => None,
            }),
        forall|m: FillMarkout| (#[trigger] m.at_spec(MarkoutHorizon::S1)) == m.s1,
        forall|m: FillMarkout| (#[trigger] m.at_spec(MarkoutHorizon::S5)) == m.s5,
        forall|m: FillMarkout| (#[trigger] m.at_spec(MarkoutHorizon::S30)) == m.s30,
        forall|m: FillMarkout| (#[trigger] m.at_spec(MarkoutHorizon::Expiry)) == m.expiry,
{
}

/// Every markout that a resolution gives out is that of one of the window's waiting fills, anchored
/// at the reading that stood at the fill, and measured against what stood one, five and thirty
/// seconds after it, or against the settled outcome where that is past the close.
pub proof fn law_markouts_are_measured_at_their_horizons(
    window: WindowId,
    snaps: Seq<(i64, i64)>,
    pending: Seq<PendingMarkout>,
    winner: Outcome,
    close_ms: int,
    k: int,
)
    requires
        0 <= k < marked(window, snaps, pending, winner, close_ms).len(),
    ensures
        ({
            let m = marked(window, snaps, pending, winner, close_ms)[k];
            &&& m.window == window
            &&& exists|i: int|
                0 <= i < pending.len() && (#[trigger] pending[i]).outcome == m.outcome
                    && pending[i].side == m.side && pending[i].ts_fill_ms == m.ts_fill_ms
            &&& measured_at_each_horizon(m, snaps, winner, close_ms)
        }),
    decreases pending.len(),
{
    let rest = pending.drop_last();
    let before = marked(window, snaps, rest, winner, close_ms);
    let last = pending.len() - 1;
    if k < before.len() {
        law_markouts_are_measured_at_their_horizons(window, snaps, rest, winner, close_ms, k);
        let m = before[k];
        let i = choose|i: int|
            0 <= i < rest.len() && (#[trigger] rest[i]).outcome == m.outcome && rest[i].side
                == m.side && rest[i].ts_fill_ms == m.ts_fill_ms;
        assert(pending[i] == rest[i]);
    } else {
        let p = pending[last];
        let at = p.ts_fill_ms as int;
        law_reading_stood_at_the_deadline(snaps, at);
        law_read_where_a_reading_came(snaps, at);
        lemma_read_later_too(snaps, at, deadline_of(at, 1_000));
        lemma_read_later_too(snaps, at, deadline_of(at, 5_000));
        lemma_read_later_too(snaps, at, deadline_of(at, 30_000));
    }
}

proof fn lemma_read_later_too(snaps: Seq<(i64, i64)>, at: int, later: int)
    requires
        latest_at(snaps, at) is Some,
        at <= later,
    ensures
        latest_at(snaps, later) matches Some(k) && stood_at(snaps, later, k),
{
    law_read_where_a_reading_came(snaps, at);
    law_read_where_a_reading_came(snaps, later);
    law_reading_stood_at_the_deadline(snaps, later);
    let i = choose|i: int| 0 <= i < snaps.len() && (#[trigger] snaps[i]).0 <= at;
    assert(snaps[i].0 <= later);
}

/// A fill is dropped exactly where every reading of its window came after it; the others are marked
/// out.
pub proof fn law_dropped_for_want_of_a_reading(snaps: Seq<(i64, i64)>, p: PendingMarkout)
    ensures
        dropped(snaps, seq![p]) == (if forall|i: int|
            0 <= i < snaps.len() ==> (#[trigger] snaps[i]).0 > p.ts_fill_ms {
            1nat
        } else {
            0nat
        }),
{
    law_read_where_a_reading_came(snaps, p.ts_fill_ms as int);
    assert(seq![p].drop_last() =~= Seq::empty());
    reveal_with_fuel(dropped, 2);
}

/// A reading joins the end of its window's readings, of which the newest stay, as many as the ring
/// holds; the window's fills and every other window are as they were.
pub proof fn law_reading_joins_its_window(
    v: MarkoutView,
    window: WindowId,
    ts: i64,
    fair_up: i64,
    other: WindowId,
)
    requires
        v.wf(),
    ensures
        ({
            let (was, now) = (
                v.window(window).snaps,
                v.with_snapshot(window, ts, fair_up).window(window).snaps,
            );
            &&& now.len() == (if was.len() + 1 > v.ring_max {
                v.ring_max
            } else {
                was.len() + 1
            })
            &&& now.last() == (ts, fair_up)
            &&& forall|i: int|
                0 <= i < now.len() - 1 ==> #[trigger] now[i] == was[was.len() + 1 - now.len() + i]
            &&& v.with_snapshot(window, ts, fair_up).window(window).pending == v.window(
                window,
            ).pending
            &&& other != window ==> v.with_snapshot(window, ts, fair_up).window(other) == v.window(
                other,
            )
            &&& v.with_snapshot(window, ts, fair_up).no_anchor_dropped == v.no_anchor_dropped
        }),
{
    let w = v.window(window);
    crate::table::lemma_put(
        v.windows,
        window,
        WindowMarkoutView { snaps: newest(w.snaps.push((ts, fair_up)), v.ring_max), ..w },
    );
    assert(crate::table::lookup(v.windows, other) == crate::table::lookup(v.windows, other));
}

/// A passive fill waits at the end of its window's fills; its readings and every other window are
/// as they were.
pub proof fn law_fill_waits_in_its_window(
    v: MarkoutView,
    window: WindowId,
    p: PendingMarkout,
    other: WindowId,
)
    requires
        v.wf(),
    ensures
        ({
            let (was, now) = (v.window(window), v.with_fill(window, p).window(window));
            &&& now.pending.len() == was.pending.len() + 1
            &&& now.pending.last() == p
            &&& forall|i: int|
                0 <= i < was.pending.len() ==> #[trigger] now.pending[i] == was.pending[i]
            &&& now.snaps == was.snaps
            &&& other != window ==> v.with_fill(window, p).window(other) == v.window(other)
            &&& v.with_fill(window, p).no_anchor_dropped == v.no_anchor_dropped
        }),
{
    let w = v.window(window);
    crate::table::lemma_put(
        v.windows,
        window,
        WindowMarkoutView { pending: w.pending.push(p), ..w },
    );
    assert(crate::table::lookup(v.windows, other) == crate::table::lookup(v.windows, other));
}

/// The latest reading at or before a deadline.
fn locf(snaps: &VecDeque<(i64, i64)>, deadline: i64) -> (r: Option<i64>)
    ensures
        r == latest_at(snaps@, deadline as int),
{
    let mut i: usize = snaps.len();
    assert(snaps@.subrange(0, i as int) =~= snaps@);
    while i > 0
        invariant
            i <= snaps@.len(),
            latest_at(snaps@, deadline as int) == latest_at(
                snaps@.subrange(0, i as int),
                deadline as int,
            ),
        decreases i,
    {
        let ghost part = snaps@.subrange(0, i as int);
        i = i - 1;
        assert(part.last() == snaps@[i as int]);
        assert(part.drop_last() =~= snaps@.subrange(0, i as int));
        if snaps[i].0 <= deadline {
            return Some(snaps[i].1);
        }
    }
    None
}

/// The settled fair value of an outcome.
pub fn terminal_fair(outcome: Outcome, winner: Outcome) -> (r: TerminalFair)
    ensures
        r == settled_fair(outcome, winner),
{
    if outcome == winner {
        TerminalFair::Won
    } else {
        TerminalFair::Lost
    }
}

/// The markout of a fill at a finite horizon.
fn measure(
    snaps: &VecDeque<(i64, i64)>,
    p: &PendingMarkout,
    anchor: i64,
    offset: i64,
    winner: Outcome,
    close_ms: i64,
) -> (r: MarkoutPoint)
    requires
        0 <= offset,
    ensures
        r == point_at(snaps@, *p, anchor, offset as int, winner, close_ms as int),
{
    let deadline: i64 = if p.ts_fill_ms > i64::MAX - offset {
        i64::MAX
    } else {
        p.ts_fill_ms + offset
    };
    if deadline > close_ms {
        MarkoutPoint { terminal: terminal_fair(p.outcome, winner), source: MarkoutSource::Settled }
    } else {
        let reading: i64 = match locf(snaps, deadline) {
            Some(k) => k,
            None => anchor,
        };
        MarkoutPoint {
            terminal: TerminalFair::UpReading(reading),
            source: MarkoutSource::Snapshot,
        }
    }
}

impl MarkoutEngine {
    /// Whether the engine is consistent: no window twice, and a ring of at least one.
    pub open spec fn wf(&self) -> bool {
        self@.wf()
    }

    /// An engine with a cap on the readings that a window keeps, of at least one.
    pub fn new(ring_max: usize) -> (r: MarkoutEngine)
        ensures
            r.wf(),
            r@ == (MarkoutView {
                ring_max: if ring_max >= 1 {
                    ring_max as nat
                } else {
                    1
                },
                windows: Seq::empty(),
                no_anchor_dropped: 0,
            }),
    {
        MarkoutEngine {
            ring_max: if ring_max >= 1 {
                ring_max
            } else {
                1
            },
            windows: Table::new(),
            no_anchor_dropped: 0,
        }
    }

    /// The place of a window's state, which is made where there is none.
    fn slot(&mut self, window: WindowId) -> (r: usize)
        requires
            old(self).wf(),
        ensures
            final(self).wf(),
            r < final(self).windows@.len(),
            final(self).windows@[r as int] == (window, old(self)@.window(window)),
            final(self).windows@ == crate::table::put(
                old(self).windows@,
                window,
                old(self)@.window(window),
            ),
            final(self).ring_max == old(self).ring_max,
            final(self).no_anchor_dropped == old(self).no_anchor_dropped,
    {
        match self.windows.find(&window) {
            Some(i) => {
                proof {
                    assert(self.windows@.update(i as int, self.windows@[i as int])
                        =~= self.windows@);
                }
                i
            },
            None => {
                let fresh = WindowMarkout { snaps: VecDeque::new(), pending: Vec::new() };
                assert(fresh@.snaps =~= fresh_window().snaps);
                assert(fresh@.pending =~= fresh_window().pending);
                self.windows.insert(window, fresh);
                self.windows.len() - 1
            },
        }
    }

    /// Takes in a reading of the Up probability for a window. Past the cap the oldest reading
    /// goes.
    pub fn on_snapshot(&mut self, window: WindowId, ts_ms: i64, fair_up: i64)
        requires
            old(self).wf(),
        ensures
            final(self).wf(),
            final(self)@ == old(self)@.with_snapshot(window, ts_ms, fair_up),
    {
        let ghost before = self@;
        let i: usize = self.slot(window);
        let cap: usize = self.ring_max;
        let ghost entries = self.windows@;
        proof {
            crate::table::lemma_put(before.windows, window, before.window(window));
            crate::table::lemma_place(entries, window, i as int);
        }
        let w = self.windows.value_mut(i);
        w.snaps.push_back((ts_ms, fair_up));
        let ghost pushed = w.snaps@;
        while w.snaps.len() > cap
            invariant
                w.pending@ == before.window(window).pending,
                w.snaps@.len() <= pushed.len(),
                w.snaps@ == pushed.subrange(pushed.len() - w.snaps@.len(), pushed.len() as int),
                w.snaps@.len() >= cap || w.snaps@ == pushed,
            decreases w.snaps@.len(),
        {
            w.snaps.pop_front();
        }
        assert(w.snaps@ =~= newest(pushed, cap as nat));
        proof {
            assert(self@.windows =~= before.with_snapshot(window, ts_ms, fair_up).windows);
        }
    }

    /// Takes in a passive fill, to be marked out at its window's resolution.
    pub fn on_fill(&mut self, window: WindowId, outcome: Outcome, side: Side, ts_fill_ms: i64)
        requires
            old(self).wf(),
        ensures
            final(self).wf(),
            final(self)@ == old(self)@.with_fill(
                window,
                (PendingMarkout { outcome, side, ts_fill_ms }),
            ),
    {
        let ghost before = self@;
        let i: usize = self.slot(window);
        let w = self.windows.value_mut(i);
        w.pending.push(PendingMarkout { outcome, side, ts_fill_ms });
        proof {
            assert(self@.windows =~= before.with_fill(
                window,
                PendingMarkout { outcome, side, ts_fill_ms },
            ).windows);
        }
    }

    /// Resolves a window: marks every waiting fill out, in fill order, and lets the window's
    /// state go. Fills without a reading at or before them are dropped and counted.
    pub fn on_resolved(&mut self, window: WindowId, winner: Outcome, close_ms: i64) -> (r: Vec<
        FillMarkout,
    >)
        requires
            old(self).wf(),
            old(self)@.no_anchor_dropped + old(self)@.window(window).pending.len() <= u64::MAX,
        ensures
            final(self).wf(),
            final(self)@ == old(self)@.without_window(window),
            r@ == marked(
                window,
                old(self)@.window(window).snaps,
                old(self)@.window(window).pending,
                winner,
                close_ms as int,
            ),
    {
        let ghost w = self@.window(window);
        let ghost start = self.no_anchor_dropped;
        let mut out: Vec<FillMarkout> = Vec::new();
        match self.windows.remove(&window) {
            None => {
                assert(out@ =~= marked(window, w.snaps, w.pending, winner, close_ms as int));
            },
            Some(state) => {
                assert(state@ == w);
                let mut lost: u64 = 0;
                let mut i: usize = 0;
                assert(w.pending.subrange(0, 0) =~= Seq::empty());
                while i < state.pending.len()
                    invariant
                        i <= state.pending@.len(),
                        state@ == w,
                        out@ == marked(
                            window,
                            w.snaps,
                            w.pending.subrange(0, i as int),
                            winner,
                            close_ms as int,
                        ),
                        lost == dropped(w.snaps, w.pending.subrange(0, i as int)),
                        lost <= i,
                    decreases state.pending.len() - i,
                {
                    let p = state.pending[i];
                    let ghost part = w.pending.subrange(0, i + 1);
                    assert(part.last() == p);
                    assert(part.drop_last() =~= w.pending.subrange(0, i as int));
                    match locf(&state.snaps, p.ts_fill_ms) {
                        None => {
                            lost = lost + 1;
                        },
                        Some(anchor) => {
                            out.push(
                                FillMarkout {
                                    window,
                                    outcome: p.outcome,
                                    side: p.side,
                                    ts_fill_ms: p.ts_fill_ms,
                                    anchor,
                                    s1: measure(&state.snaps, &p, anchor, 1_000, winner, close_ms),
                                    s5: measure(&state.snaps, &p, anchor, 5_000, winner, close_ms),
                                    s30: measure(&state.snaps, &p, anchor, 30_000, winner, close_ms),
                                    expiry: MarkoutPoint {
                                        terminal: terminal_fair(p.outcome, winner),
                                        source: MarkoutSource::Settled,
                                    },
                                },
                            );
                        },
                    }
                    i = i + 1;
                }
                assert(w.pending.subrange(0, w.pending.len() as int) =~= w.pending);
                self.no_anchor_dropped = self.no_anchor_dropped + lost;
            },
        }
        out
    }

    /// How many passive fills wait for a window's resolution.
    pub fn waiting_fills(&self, window: WindowId) -> (r: usize)
        requires
            self.wf(),
        ensures
            r == self@.window(window).pending.len(),
    {
        match self.windows.get(&window) {
            Some(w) => w.pending.len(),
            None => 0,
        }
    }

    /// How many passive fills have been dropped for want of an anchor.
    pub fn no_anchor_dropped(&self) -> (r: u64)
        ensures
            r == self@.no_anchor_dropped,
    {
        self.no_anchor_dropped
    }

    /// How many windows have readings or waiting fills.
    pub fn active_windows(&self) -> (r: usize)
        ensures
            r == self@.windows.len(),
    {
        self.windows.len()
    }
}

} // verus!
