//! The analytics fold: takes events in and gives effects out.
//!
//! The fold goes by what the events carry alone, so that folding journaled events gives the
//! state and the effects of the session that journaled them.
//!
//! A markout's value and the rolling mean of markouts are floating-point numbers, which the
//! caller computes: a settlement carries the five-second markouts of its window and, for each,
//! the mean after it, as order keys.

use vstd::prelude::*;

use crate::attribution::{exact_split, has_split, plausible, WindowAttrib, WindowAttribution};
use crate::datekey::DayKey;
use crate::decimal::{abs_int, Amount, SAFE_UNITS, UNIT};
use crate::health::{AdverseSelectionMonitor, AdverseSelectionState, MonitorView, SeriesHealth};
use crate::markout::{marked, FillMarkout, MarkoutEngine, MarkoutView, PendingMarkout};
use crate::params::AnalyticsParams;
use crate::rollup::{
    adds_up, booked_under, by_load, day_entry, days_in, grouped, has_groups, has_row, is_row,
    is_selection, is_sorting, picked, same_row, same_rows, store_folded, store_wf, total, views,
    AggregateView, ComparisonWindow, DailyRollup, Days, RollupStore, SeriesAggregate,
    SeriesComparison, SeriesComparisonRow, SortColumn, Totals,
};
use crate::table::{cut, holds_key, lookup, put, unique_keys, Table};
use crate::types::{
    Fill, Liquidity, Mode, Outcome, Series, SettlementSummary, WindowId, WindowLifecycle,
};

verus! {

/// What is kept of an announced market.
#[derive(Clone, Copy, PartialEq, Eq, Structural, Debug)]
pub struct MarketMeta {
    /// The taker fee rate.
    pub fee_rate: Amount,
    /// The share of the fee that makers get back.
    pub rebate_rate: Amount,
    /// The close, Unix milliseconds.
    pub close_ms: i64,
}

impl View for MarketMeta {
    type V = MarketMeta;

    open spec fn view(&self) -> MarketMeta {
        *self
    }
}

/// What the fold gives out.
#[derive(Clone, Copy, PartialEq, Eq, Structural, Debug)]
pub enum AnalyticsEffect {
    /// A passive fill's markouts, final at its window's resolution.
    FillMarkout(FillMarkout),
    /// A window's PnL, split at settlement.
    WindowSettled(WindowAttribution),
    /// A change of a series' alarm state.
    SeriesHealth(SeriesHealth),
}

/// What the fold takes in.
#[derive(Clone, Debug)]
pub enum AnalyticsEvent {
    /// A market, and where its window stands.
    Window {
        /// The window.
        window: WindowId,
        /// The market.
        meta: MarketMeta,
        /// Where it stands.
        lifecycle: WindowLifecycle,
    },
    /// A fill.
    Fill(Fill),
    /// A model reading, for a window or for none.
    Model {
        /// The window.
        of: Option<WindowId>,
        /// When, Unix milliseconds.
        ts_ms: i64,
        /// The Up probability, as an order key.
        p_up: i64,
    },
    /// A settled window.
    Settlement {
        /// The ledger's record.
        summary: SettlementSummary,
        /// The five-second markouts of the window's passive fills, as order keys.
        markouts: Vec<i64>,
        /// The rolling mean of the series' markouts after each, as order keys.
        means: Vec<i64>,
    },
    /// An event that does not concern analytics.
    Other,
}

/// An event, its lists as sequences.
pub enum EventView {
    Window { window: WindowId, meta: MarketMeta, lifecycle: WindowLifecycle },
    Fill(Fill),
    Model { of: Option<WindowId>, ts_ms: i64, p_up: i64 },
    Settlement { summary: SettlementSummary, markouts: Seq<i64>, means: Seq<i64> },
    Other,
}

impl View for AnalyticsEvent {
    type V = EventView;

    open spec fn view(&self) -> EventView {
        match *self {
            AnalyticsEvent::Window { window, meta, lifecycle } => EventView::Window {
                window,
                meta,
                lifecycle,
            },
            AnalyticsEvent::Fill(f) => EventView::Fill(f),
            AnalyticsEvent::Model { of, ts_ms, p_up } => EventView::Model {
                of,
                ts_ms,
                p_up,
            },
            AnalyticsEvent::Settlement { summary, markouts, means } => EventView::Settlement {
                summary,
                markouts: markouts@,
                means: means@,
            },
            AnalyticsEvent::Other => EventView::Other,
        }
    }
}

/// The analytics of one session mode.
#[derive(Clone, Debug)]
pub struct Analytics {
    mode: Mode,
    params: AnalyticsParams,
    markout: MarkoutEngine,
    windows: Table<WindowId, WindowAttrib>,
    market_meta: Table<WindowId, MarketMeta>,
    resolved_markouts: Table<WindowId, Vec<FillMarkout>>,
    rollups: RollupStore,
    adverse: Table<Series, AdverseSelectionMonitor>,
}

/// What an [`Analytics`] holds.
pub struct AnalyticsView {
    pub mode: Mode,
    pub params: AnalyticsParams,
    pub markout: MarkoutView,
    pub windows: Seq<(WindowId, WindowAttrib)>,
    pub meta: Seq<(WindowId, MarketMeta)>,
    pub resolved: Seq<(WindowId, Seq<FillMarkout>)>,
    pub rollups: Days,
    pub adverse: Seq<(Series, MonitorView)>,
}

impl View for Analytics {
    type V = AnalyticsView;

    closed spec fn view(&self) -> AnalyticsView {
        AnalyticsView {
            mode: self.mode,
            params: self.params,
            markout: self.markout@,
            windows: self.windows@,
            meta: self.market_meta@,
            resolved: self.resolved_markouts@,
            rollups: self.rollups@,
            adverse: self.adverse@,
        }
    }
}

/// The alarm state and the effects after some markouts with their means.
pub open spec fn watched(
    m: MonitorView,
    series: Series,
    mode: Mode,
    markouts: Seq<i64>,
    means: Seq<i64>,
) -> (MonitorView, Seq<AnalyticsEffect>)
    decreases markouts.len(),
{
    if markouts.len() == 0 {
        (m, Seq::empty())
    } else {
        let (before, effects) = watched(
            m,
            series,
            mode,
            markouts.drop_last(),
            means.drop_last(),
        );
        let now = before.pushed(markouts.last());
        (
            now.with_mean(means.last() as int),
            match now.change(means.last() as int) {
                Some((from, to)) => effects.push(
                    AnalyticsEffect::SeriesHealth(SeriesHealth { series, mode, from, to }),
                ),
                None => effects,
            },
        )
    }
}

/// Markouts as effects.
pub open spec fn as_effects(fms: Seq<FillMarkout>) -> Seq<AnalyticsEffect> {
    fms.map_values(|f: FillMarkout| AnalyticsEffect::FillMarkout(f))
}

impl AnalyticsView {
    /// A state that has seen nothing.
    pub open spec fn fresh(mode: Mode, params: AnalyticsParams) -> AnalyticsView {
        AnalyticsView {
            mode,
            params,
            markout: MarkoutView {
                ring_max: if params.snapshot_ring_max >= 1 {
                    params.snapshot_ring_max as nat
                } else {
                    1
                },
                windows: Seq::empty(),
                no_anchor_dropped: 0,
            },
            windows: Seq::empty(),
            meta: Seq::empty(),
            resolved: Seq::empty(),
            rollups: Seq::empty(),
            adverse: Seq::empty(),
        }
    }

    /// Whether nothing is held under one key twice.
    pub open spec fn wf(self) -> bool {
        &&& unique_keys(self.windows)
        &&& unique_keys(self.meta)
        &&& unique_keys(self.resolved)
        &&& unique_keys(self.adverse)
        &&& store_wf(self.rollups)
        &&& self.markout.wf()
    }

    /// A window's accumulator, a fresh one where it has not traded.
    pub open spec fn attrib(self, window: WindowId) -> WindowAttrib {
        match lookup(self.windows, window) {
            Some(a) => a,
            None => WindowAttrib::fresh(window),
        }
    }

    /// The fee rate of a window, the default where it was not announced.
    pub open spec fn fee_rate(self, window: WindowId) -> Amount {
        match lookup(self.meta, window) {
            Some(m) => m.fee_rate,
            None => self.params.default_fee_rate.amount_spec(),
        }
    }

    /// The rebate share of a window, the default where it was not announced.
    pub open spec fn rebate_rate(self, window: WindowId) -> Amount {
        match lookup(self.meta, window) {
            Some(m) => m.rebate_rate,
            None => self.params.default_rebate_rate.amount_spec(),
        }
    }

    /// The markouts of a resolved window that has not settled.
    pub open spec fn resolved_fills(self, window: WindowId) -> Seq<FillMarkout> {
        match lookup(self.resolved, window) {
            Some(f) => f,
            None => Seq::empty(),
        }
    }

    /// The monitor of a series, a fresh one where it has none.
    pub open spec fn monitor(self, series: Series) -> MonitorView {
        match lookup(self.adverse, series) {
            Some(m) => m,
            None => MonitorView::fresh(self.params.adverse),
        }
    }

    /// The markouts of a window that resolves.
    pub open spec fn marked_out(
        self,
        window: WindowId,
        winner: Outcome,
        close_ms: i64,
    ) -> Seq<FillMarkout> {
        let w = self.markout.window(window);
        marked(window, w.snaps, w.pending, winner, close_ms as int)
    }

    /// The split of a settlement.
    pub open spec fn attribution(self, summary: SettlementSummary) -> WindowAttribution {
        let a = self.attrib(summary.window);
        WindowAttribution::of_summary(
            summary,
            self.mode,
            a.base(),
            self.rebate_rate(summary.window),
            a.makers() as u64,
            a.takers() as u64,
            a.notional(),
        )
    }

    /// After a market event. A resolution marks the window's passive fills out; they are kept
    /// until the settlement where the window has traded, and otherwise the market is let go.
    pub open spec fn with_window(
        self,
        window: WindowId,
        meta: MarketMeta,
        lifecycle: WindowLifecycle,
    ) -> AnalyticsView {
        let known = put(self.meta, window, meta);
        match lifecycle {
            WindowLifecycle::Resolved { outcome } => if holds_key(self.windows, window) {
                AnalyticsView {
                    meta: known,
                    markout: self.markout.without_window(window),
                    resolved: put(
                        self.resolved,
                        window,
                        self.marked_out(window, outcome, meta.close_ms),
                    ),
                    ..self
                }
            } else {
                AnalyticsView {
                    meta: cut(known, window),
                    markout: self.markout.without_window(window),
                    ..self
                }
            },
            _ => AnalyticsView { meta: known, ..self },
        }
    }

    /// After a fill: the window's accumulator takes it in, and a passive one waits to be marked
    /// out.
    pub open spec fn with_fill(self, fill: Fill) -> AnalyticsView {
        AnalyticsView {
            windows: put(
                self.windows,
                fill.window,
                self.attrib(fill.window).with_fill(fill, self.fee_rate(fill.window)),
            ),
            markout: if fill.liquidity == Liquidity::Maker {
                self.markout.with_fill(
                    fill.window,
                    PendingMarkout {
                        outcome: fill.outcome,
                        side: fill.side,
                        ts_fill_ms: fill.ts_venue_ms,
                    },
                )
            } else {
                self.markout
            },
            ..self
        }
    }

    /// After a settlement: the split is booked, the series' alarm state takes the markouts in,
    /// and nothing is held for the window any more.
    pub open spec fn with_settlement(
        self,
        summary: SettlementSummary,
        markouts: Seq<i64>,
        means: Seq<i64>,
    ) -> AnalyticsView {
        let series = summary.window.series;
        AnalyticsView {
            windows: cut(self.windows, summary.window),
            meta: cut(self.meta, summary.window),
            resolved: cut(self.resolved, summary.window),
            rollups: store_folded(self.rollups, self.attribution(summary), markouts),
            adverse: put(
                self.adverse,
                series,
                watched(self.monitor(series), series, self.mode, markouts, means).0,
            ),
            ..self
        }
    }

    /// After an event.
    pub open spec fn after(self, e: EventView) -> AnalyticsView {
        match e {
            EventView::Window { window, meta, lifecycle } => self.with_window(
                window,
                meta,
                lifecycle,
            ),
            EventView::Fill(fill) => self.with_fill(fill),
            EventView::Model { of: Some(window), ts_ms, p_up } => AnalyticsView {
                markout: self.markout.with_snapshot(window, ts_ms, p_up),
                ..self
            },
            EventView::Settlement { summary, markouts, means } => self.with_settlement(
                summary,
                markouts,
                means,
            ),
            _ => self,
        }
    }

    /// The effects of an event.
    pub open spec fn effects(self, e: EventView) -> Seq<AnalyticsEffect> {
        match e {
            EventView::Window {
                window,
                meta,
                lifecycle: WindowLifecycle::Resolved { outcome },
            } => as_effects(self.marked_out(window, outcome, meta.close_ms)),
            EventView::Settlement { summary, markouts, means } => seq![
                AnalyticsEffect::WindowSettled(self.attribution(summary)),
            ] + watched(
                self.monitor(summary.window.series),
                summary.window.series,
                self.mode,
                markouts,
                means,
            ).1,
            _ => Seq::empty(),
        }
    }

    /// Whether an event is sure to fit: its figures are ones that a venue reports, the counters
    /// have room, and a settlement has a mean for each markout and a markout for each fill that
    /// was marked out.
    pub open spec fn ready(self, e: EventView) -> bool {
        match e {
            EventView::Window { window, meta, lifecycle } => lifecycle is Resolved
                ==> self.markout.no_anchor_dropped + self.markout.window(window).pending.len()
                <= u64::MAX,
            EventView::Fill(fill) => {
                &&& self.attrib(fill.window).has_room()
                &&& plausible(fill.size, self.fee_rate(fill.window), fill.price)
            },
            EventView::Settlement { summary, markouts, means } => {
                &&& summary.bounded()
                &&& abs_int(
                    self.rebate_rate(summary.window).value() * self.attrib(
                        summary.window,
                    ).base().value(),
                ) <= SAFE_UNITS * 6 * UNIT * UNIT
                &&& summary.matched_pairs.within(SAFE_UNITS * 7)
                &&& summary.merged_pairs.within(SAFE_UNITS * 7)
                &&& self.attrib(summary.window).notional().within(SAFE_UNITS * 7)
                &&& markouts.len() == self.resolved_fills(summary.window).len()
                &&& markouts.len() == means.len()
                &&& self.monitor(summary.window.series).total + markouts.len() <= u64::MAX
                &&& self.settled_on(summary).markout_5s_n + markouts.len() <= u32::MAX
                &&& self.settled_on(summary).room_for(
                    self.attrib(summary.window).makers() as int,
                    self.attrib(summary.window).takers() as int,
                )
            },
            _ => true,
        }
    }

    /// What the windows of a series have added up to on the day that one of them settles.
    pub open spec fn settled_on(self, summary: SettlementSummary) -> Totals {
        day_entry(
            self.rollups,
            crate::datekey::SeriesDay {
                series: summary.window.series,
                day: DayKey::of_ts(summary.ts_ms as int),
            },
            self.mode,
        ).totals
    }

    /// Whether an event can be taken in: no figure that it leads to is beyond the largest decimal, no
    /// counter runs over, and a settlement has a mean for each markout and a markout for each fill
    /// that was marked out.
    pub open spec fn fits(self, e: EventView) -> bool {
        match e {
            EventView::Window { window, meta, lifecycle } => lifecycle is Resolved
                ==> self.markout.no_anchor_dropped + self.markout.window(window).pending.len()
                <= u64::MAX,
            EventView::Fill(fill) => self.attrib(fill.window).takes_fill(
                fill,
                self.fee_rate(fill.window),
            ),
            EventView::Settlement { summary, markouts, means } => {
                &&& has_split(summary)
                &&& Amount::has_product(
                    self.rebate_rate(summary.window),
                    self.attrib(summary.window).base(),
                )
                &&& markouts.len() == self.resolved_fills(summary.window).len()
                &&& markouts.len() == means.len()
                &&& self.monitor(summary.window.series).total + markouts.len() <= u64::MAX
                &&& day_entry(
                    self.rollups,
                    booked_under(self.attribution(summary)),
                    self.mode,
                ).takes(self.attribution(summary), markouts)
            },
            _ => true,
        }
    }
}

/// The state after some events.
pub open spec fn folded(s: AnalyticsView, events: Seq<EventView>) -> AnalyticsView
    decreases events.len(),
{
    if events.len() == 0 {
        s
    } else {
        folded(s, events.drop_last()).after(events.last())
    }
}

/// The effects of some events.
pub open spec fn effects_of(s: AnalyticsView, events: Seq<EventView>) -> Seq<AnalyticsEffect>
    decreases events.len(),
{
    if events.len() == 0 {
        Seq::empty()
    } else {
        effects_of(s, events.drop_last()) + folded(s, events.drop_last()).effects(events.last())
    }
}

/// Whether an event is sure to fit after those before it.
pub open spec fn ready_at(s: AnalyticsView, events: Seq<EventView>, k: int) -> bool {
    folded(s, events.subrange(0, k)).ready(events[k])
}

/// Whether some events are sure to fit one after the other.
pub open spec fn all_ready(s: AnalyticsView, events: Seq<EventView>) -> bool {
    forall|k: int| 0 <= k < events.len() ==> #[trigger] ready_at(s, events, k)
}

/// Whether an event fits after those before it.
pub open spec fn fits_at(s: AnalyticsView, events: Seq<EventView>, k: int) -> bool {
    folded(s, events.subrange(0, k)).fits(events[k])
}

/// The views of some events.
pub open spec fn event_views(events: Seq<AnalyticsEvent>) -> Seq<EventView> {
    events.map_values(|e: AnalyticsEvent| e@)
}

/// Folding a journal and then what came after it gives the state and the effects of a session
/// that never stopped.
pub proof fn law_rebuild_equals_live(s: AnalyticsView, journal: Seq<EventView>, later: Seq<EventView>)
    ensures
        folded(folded(s, journal), later) == folded(s, journal + later),
        effects_of(s, journal) + effects_of(folded(s, journal), later) == effects_of(
            s,
            journal + later,
        ),
    decreases later.len(),
{
    let all = journal + later;
    if later.len() == 0 {
        assert(all =~= journal);
    } else {
        law_rebuild_equals_live(s, journal, later.drop_last());
        assert(all.drop_last() =~= journal + later.drop_last());
        assert(all.last() == later.last());
        assert(effects_of(s, journal) + effects_of(folded(s, journal), later) =~= effects_of(
            s,
            journal + later.drop_last(),
        ) + folded(folded(s, journal), later.drop_last()).effects(later.last()));
    }
}

/// A fill is booked in its own window, at the fee rate that its market announced or else the
/// default, and waits to be marked out exactly where it is passive; nothing else changes.
pub proof fn law_fill_is_booked_in_its_window(s: AnalyticsView, fill: Fill, other: WindowId)
    requires
        s.wf(),
    ensures
        ({
            let after = s.with_fill(fill);
            let rate = match lookup(s.meta, fill.window) {
                Some(m) => m.fee_rate,
                None => s.params.default_fee_rate.amount_spec(),
            };
            let was = s.markout.window(fill.window);
            let now = after.markout.window(fill.window);
            &&& lookup(after.windows, fill.window) == Some(
                s.attrib(fill.window).with_fill(fill, rate),
            )
            &&& other != fill.window ==> lookup(after.windows, other) == lookup(s.windows, other)
            &&& other != fill.window ==> after.markout.window(other) == s.markout.window(other)
            &&& fill.liquidity == Liquidity::Maker ==> now.pending.len() == was.pending.len() + 1
                && now.pending.last().outcome == fill.outcome && now.pending.last().side
                == fill.side && now.pending.last().ts_fill_ms == fill.ts_venue_ms
            &&& fill.liquidity == Liquidity::Taker ==> now == was
            &&& now.snaps == was.snaps
            &&& after.meta == s.meta && after.resolved == s.resolved && after.rollups == s.rollups
                && after.adverse == s.adverse
            &&& s.effects(EventView::Fill(fill)).len() == 0
        }),
{
    crate::table::lemma_put(
        s.windows,
        fill.window,
        s.attrib(fill.window).with_fill(fill, s.fee_rate(fill.window)),
    );
    assert(lookup(s.windows, other) == lookup(s.windows, other));
    crate::markout::law_fill_waits_in_its_window(
        s.markout,
        fill.window,
        PendingMarkout {
            outcome: fill.outcome,
            side: fill.side,
            ts_fill_ms: fill.ts_venue_ms,
        },
        other,
    );
}

/// A reading of a window joins that window's readings; a reading of none changes nothing.
pub proof fn law_reading_goes_to_its_window(
    s: AnalyticsView,
    window: WindowId,
    ts_ms: i64,
    p_up: i64,
)
    requires
        s.wf(),
    ensures
        ({
            let e = EventView::Model { of: Some(window), ts_ms, p_up };
            let after = s.after(e);
            &&& after.markout.window(window).snaps.last() == (ts_ms, p_up)
            &&& after.windows == s.windows && after.meta == s.meta && after.resolved == s.resolved
                && after.rollups == s.rollups && after.adverse == s.adverse
            &&& s.effects(e).len() == 0
        }),
        s.after(EventView::Model { of: None, ts_ms, p_up }) == s,
        s.after(EventView::Other) == s,
{
    crate::markout::law_reading_joins_its_window(s.markout, window, ts_ms, p_up, window);
}

/// A resolution gives out the markouts of the window's waiting fills, against the outcome that won
/// and up to the close that its market announced. They are kept for the settlement where the window
/// has traded. Any other market event only tells what is known of its market.
pub proof fn law_resolution_marks_its_window_out(
    s: AnalyticsView,
    window: WindowId,
    meta: MarketMeta,
    outcome: Outcome,
    lifecycle: WindowLifecycle,
)
    requires
        s.wf(),
    ensures
        ({
            let resolved = WindowLifecycle::Resolved { outcome };
            let after = s.with_window(window, meta, resolved);
            let w = s.markout.window(window);
            let fills = marked(window, w.snaps, w.pending, outcome, meta.close_ms as int);
            let effects = s.effects(EventView::Window { window, meta, lifecycle: resolved });
            &&& effects.len() == fills.len()
            &&& forall|i: int|
                0 <= i < fills.len() ==> #[trigger] effects[i] == AnalyticsEffect::FillMarkout(
                    fills[i],
                )
            &&& holds_key(s.windows, window) ==> after.resolved_fills(window) == fills && lookup(
                after.meta,
                window,
            ) == Some(meta)
            &&& after.windows == s.windows && after.rollups == s.rollups && after.adverse
                == s.adverse
            &&& after.markout.window(window).pending.len() == 0
        }),
        !(lifecycle is Resolved) ==> ({
            let after = s.with_window(window, meta, lifecycle);
            &&& lookup(after.meta, window) == Some(meta)
            &&& after == AnalyticsView { meta: after.meta, ..s }
            &&& s.effects(EventView::Window { window, meta, lifecycle }).len() == 0
        }),
{
    crate::table::lemma_put(s.meta, window, meta);
    crate::table::lemma_put(
        s.resolved,
        window,
        s.marked_out(window, outcome, meta.close_ms),
    );
    crate::table::lemma_cut(s.markout.windows, window);
}

/// A monitor that takes markouts in has seen as many more, and gives out nothing but changes of its
/// own series' state, each from one state to another.
pub proof fn law_watched_series_tells_its_changes(
    m: MonitorView,
    series: Series,
    mode: Mode,
    markouts: Seq<i64>,
    means: Seq<i64>,
)
    requires
        markouts.len() == means.len(),
    ensures
        ({
            let (after, effects) = watched(m, series, mode, markouts, means);
            &&& after.total == m.total + markouts.len()
            &&& after.params == m.params
            &&& effects.len() <= markouts.len()
            &&& forall|i: int|
                0 <= i < effects.len() ==> (#[trigger] effects[i] matches
                    AnalyticsEffect::SeriesHealth(h) && h.series == series && h.mode == mode
                    && h.from != h.to)
            &&& effects.len() > 0 ==> effects[0]->SeriesHealth_0.from == m.state
                && effects.last()->SeriesHealth_0.to == after.state
            &&& effects.len() == 0 ==> after.state == m.state
        }),
    decreases markouts.len(),
{
    if markouts.len() > 0 {
        law_watched_series_tells_its_changes(
            m,
            series,
            mode,
            markouts.drop_last(),
            means.drop_last(),
        );
    }
}

/// A settlement first gives out the window's split: of its own window and mode, with the fills that
/// were booked in it, at the rebate share that its market announced or else the default. Then come
/// the changes of its series' alarm state. The window's day takes the split in, its series' monitor
/// one markout for each, and no other series' changes.
pub proof fn law_settlement_is_split_and_booked(
    s: AnalyticsView,
    summary: SettlementSummary,
    markouts: Seq<i64>,
    means: Seq<i64>,
    other: Series,
)
    requires
        s.wf(),
        markouts.len() == means.len(),
    ensures
        ({
            let e = EventView::Settlement { summary, markouts, means };
            let effects = s.effects(e);
            let after = s.with_settlement(summary, markouts, means);
            let rebate = match lookup(s.meta, summary.window) {
                Some(m) => m.rebate_rate,
                None => s.params.default_rebate_rate.amount_spec(),
            };
            let booked = s.attrib(summary.window);
            &&& effects.len() >= 1
            &&& effects[0] matches AnalyticsEffect::WindowSettled(a) && a.window == summary.window
                && a.mode == s.mode && a.outcome == summary.outcome && a.realized_pnl
                == summary.realized_pnl && a.maker_fills == booked.makers() as u64 && a.taker_fills
                == booked.takers() as u64 && a.taker_notional == booked.notional()
                && a.estimated_rebate == Amount::product_of(rebate, booked.base())
                && after.rollups == store_folded(s.rollups, a, markouts)
            &&& forall|i: int|
                1 <= i < effects.len() ==> (#[trigger] effects[i] matches
                    AnalyticsEffect::SeriesHealth(h) && h.series == summary.window.series)
            &&& after.monitor(summary.window.series).total == s.monitor(
                summary.window.series,
            ).total + markouts.len()
            &&& other != summary.window.series ==> after.monitor(other) == s.monitor(other)
            &&& after.markout == s.markout
        }),
{
    let series = summary.window.series;
    law_watched_series_tells_its_changes(s.monitor(series), series, s.mode, markouts, means);
    crate::table::lemma_put(
        s.adverse,
        series,
        watched(s.monitor(series), series, s.mode, markouts, means).0,
    );
    assert(lookup(s.adverse, other) == lookup(s.adverse, other));
    let rest = watched(s.monitor(series), series, s.mode, markouts, means).1;
    let effects = s.effects(EventView::Settlement { summary, markouts, means });
    assert forall|i: int| 1 <= i < effects.len() implies (#[trigger] effects[i] matches
        AnalyticsEffect::SeriesHealth(h) && h.series == series) by {
        assert(effects[i] == rest[i - 1]);
    }
}

/// Nothing is held for a settled window.
pub proof fn law_settlement_frees_the_window(
    s: AnalyticsView,
    summary: SettlementSummary,
    markouts: Seq<i64>,
    means: Seq<i64>,
)
    requires
        s.wf(),
    ensures
        ({
            let after = s.with_settlement(summary, markouts, means);
            &&& lookup(after.windows, summary.window) is None
            &&& lookup(after.meta, summary.window) is None
            &&& lookup(after.resolved, summary.window) is None
        }),
{
    crate::table::lemma_cut(s.windows, summary.window);
    crate::table::lemma_cut(s.meta, summary.window);
    crate::table::lemma_cut(s.resolved, summary.window);
}

/// A window that resolves untraded leaves nothing behind: neither its market, nor readings, nor
/// markouts that would wait for a settlement.
pub proof fn law_untraded_window_is_freed(
    s: AnalyticsView,
    window: WindowId,
    meta: MarketMeta,
    outcome: Outcome,
)
    requires
        s.wf(),
        !holds_key(s.windows, window),
    ensures
        ({
            let after = s.with_window(window, meta, WindowLifecycle::Resolved { outcome });
            &&& lookup(after.meta, window) is None
            &&& lookup(after.markout.windows, window) is None
            &&& after.resolved == s.resolved
            &&& after.windows == s.windows
        }),
{
    crate::table::lemma_put(s.meta, window, meta);
    crate::table::lemma_cut(put(s.meta, window, meta), window);
    crate::table::lemma_cut(s.markout.windows, window);
}

/// The alarm state of a series.
pub open spec fn health_of(s: AnalyticsView, series: Series) -> AdverseSelectionState {
    match lookup(s.adverse, series) {
        Some(m) => m.state,
        None => AdverseSelectionState::InsufficientSample,
    }
}

/// Whether the comparison rows of a state can be computed: what was booked adds up, and the
/// taker budget is no smaller than what keeps shares of it within the decimal type.
pub open spec fn rows_fit(s: AnalyticsView) -> bool {
    &&& adds_up(days_in(s.rollups))
    &&& s.params.taker_budget_per_window.value() > 0 ==> total(days_in(s.rollups), by_load()) + UNIT
        <= SAFE_UNITS * s.params.taker_budget_per_window.value()
}

/// Whether rows are those of some aggregates, one for each.
pub open spec fn are_rows(
    s: AnalyticsView,
    aggregates: Seq<AggregateView>,
    rows: Seq<SeriesComparisonRow>,
) -> bool {
    &&& rows.len() == aggregates.len()
    &&& forall|i: int|
        0 <= i < rows.len() ==> is_row(
            aggregates[i],
            s.params.min_sample_windows,
            s.params.taker_budget_per_window,
            health_of(s, aggregates[i].series),
            #[trigger] rows[i],
        )
}

/// Whether every one of some aggregates has a row.
pub open spec fn have_rows(s: AnalyticsView, aggregates: Seq<AggregateView>) -> bool {
    forall|i: int|
        0 <= i < aggregates.len() ==> has_row(
            #[trigger] aggregates[i],
            s.params.taker_budget_per_window,
        )
}

/// Whether a state has comparison rows over the days that a window covers: whether what was booked
/// on them adds up, and every figure of the rows is within the decimal type.
pub open spec fn has_rows(s: AnalyticsView, window: ComparisonWindow, today: DayKey) -> bool {
    exists|picks: Seq<usize>|
        #![trigger picked(s.rollups, picks)]
        is_selection(s.rollups, window, today, picks) && has_groups(picked(s.rollups, picks))
            && have_rows(s, grouped(picked(s.rollups, picks)))
}

/// The key of each row, by its series; one without a key sorts last.
pub open spec fn keys_of(keys: Seq<(Series, i64)>, rows: Seq<SeriesComparisonRow>) -> Seq<i64> {
    rows.map_values(
        |r: SeriesComparisonRow|
            match lookup(keys, r.series) {
                Some(k) => k,
                None => i64::MIN,
            },
    )
}

/// Whether a comparison is that of a state over the days that a window covers, best first by net
/// PnL.
pub open spec fn is_comparison(
    s: AnalyticsView,
    window: ComparisonWindow,
    today: DayKey,
    keys: Seq<(Series, i64)>,
    r: SeriesComparison,
) -> bool {
    &&& r.window == window && r.day == today && r.default_sort == SortColumn::NetPnl
    &&& exists|picks: Seq<usize>, rows: Seq<SeriesComparisonRow>, order: Seq<int>|
        #![trigger picked(s.rollups, picks), is_sorting(rows, keys_of(keys, rows), order)]
        is_selection(s.rollups, window, today, picks) && are_rows(
            s,
            grouped(picked(s.rollups, picks)),
            rows,
        ) && is_sorting(rows, keys_of(keys, rows), order) && r.rows@ == order.map_values(
            |i: int| rows[i],
        )
}

/// A state has one comparison over the days that a window covers.
pub proof fn law_one_comparison(
    s: AnalyticsView,
    window: ComparisonWindow,
    today: DayKey,
    keys: Seq<(Series, i64)>,
    a: SeriesComparison,
    b: SeriesComparison,
)
    requires
        s.rollups.len() <= usize::MAX,
        is_comparison(s, window, today, keys, a),
        is_comparison(s, window, today, keys, b),
    ensures
        a.window == b.window && a.day == b.day && a.default_sort == b.default_sort,
        same_rows(a.rows@, b.rows@),
{
    let (picks_a, rows_a, order_a) = choose|
        picks: Seq<usize>,
        rows: Seq<SeriesComparisonRow>,
        order: Seq<int>,
    |
        #![trigger picked(s.rollups, picks), is_sorting(rows, keys_of(keys, rows), order)]
        is_selection(s.rollups, window, today, picks) && are_rows(
            s,
            grouped(picked(s.rollups, picks)),
            rows,
        ) && is_sorting(rows, keys_of(keys, rows), order) && a.rows@ == order.map_values(
            |i: int| rows[i],
        );
    let (picks_b, rows_b, order_b) = choose|
        picks: Seq<usize>,
        rows: Seq<SeriesComparisonRow>,
        order: Seq<int>,
    |
        #![trigger picked(s.rollups, picks), is_sorting(rows, keys_of(keys, rows), order)]
        is_selection(s.rollups, window, today, picks) && are_rows(
            s,
            grouped(picked(s.rollups, picks)),
            rows,
        ) && is_sorting(rows, keys_of(keys, rows), order) && b.rows@ == order.map_values(
            |i: int| rows[i],
        );
    crate::rollup::law_one_selection(s.rollups, window, today, picks_a, picks_b);
    assert forall|i: int| 0 <= i < rows_a.len() implies same_row(#[trigger] rows_a[i], rows_b[i]) by {
        assert(is_row(
            grouped(picked(s.rollups, picks_a))[i],
            s.params.min_sample_windows,
            s.params.taker_budget_per_window,
            health_of(s, grouped(picked(s.rollups, picks_a))[i].series),
            rows_b[i],
        ));
    }
    let (keys_a, keys_b) = (keys_of(keys, rows_a), keys_of(keys, rows_b));
    assert(keys_a =~= keys_b);
    assert(is_sorting(rows_a, keys_a, order_b)) by {
        assert forall|j: int, k: int| 0 <= j < k < order_b.len() implies crate::rollup::sorts_before(
            rows_a,
            keys_a,
            #[trigger] order_b[j],
            #[trigger] order_b[k],
        ) by {
            assert(crate::rollup::sorts_before(rows_b, keys_b, order_b[j], order_b[k]));
            assert(same_row(rows_a[order_b[j]], rows_b[order_b[j]]));
            assert(same_row(rows_a[order_b[k]], rows_b[order_b[k]]));
        }
    }
    crate::rollup::law_one_sorting(rows_a, keys_a, order_a, order_b);
    assert forall|i: int| 0 <= i < a.rows@.len() implies same_row(
        #[trigger] a.rows@[i],
        b.rows@[i],
    ) by {
        assert(same_row(rows_a[order_a[i]], rows_b[order_a[i]]));
    }
}

/// Lets a monitor take markouts in, each with the mean after it, and adds the changes of its
/// state to the effects.
fn watch(
    monitor: &mut AdverseSelectionMonitor,
    series: Series,
    mode: Mode,
    markouts: &Vec<i64>,
    means: &Vec<i64>,
    effects: &mut Vec<AnalyticsEffect>,
)
    requires
        markouts@.len() == means@.len(),
        old(monitor)@.total + markouts@.len() <= u64::MAX,
    ensures
        final(monitor)@ == watched(old(monitor)@, series, mode, markouts@, means@).0,
        final(effects)@ == old(effects)@ + watched(
            old(monitor)@,
            series,
            mode,
            markouts@,
            means@,
        ).1,
{
    let ghost m0 = monitor@;
    let ghost head = effects@;
    let mut i: usize = 0;
    assert(markouts@.subrange(0, 0) =~= Seq::empty());
    assert(effects@ =~= head + watched(
        m0,
        series,
        mode,
        markouts@.subrange(0, 0),
        means@.subrange(0, 0),
    ).1);
    while i < markouts.len()
        invariant
            i <= markouts@.len(),
            markouts@.len() == means@.len(),
            m0.total + markouts@.len() <= u64::MAX,
            monitor@.total == m0.total + i,
            monitor@ == watched(
                m0,
                series,
                mode,
                markouts@.subrange(0, i as int),
                means@.subrange(0, i as int),
            ).0,
            effects@ == head + watched(
                m0,
                series,
                mode,
                markouts@.subrange(0, i as int),
                means@.subrange(0, i as int),
            ).1,
        decreases markouts.len() - i,
    {
        proof {
            let part = markouts@.subrange(0, i + 1);
            let part_means = means@.subrange(0, i + 1);
            assert(part.drop_last() =~= markouts@.subrange(0, i as int));
            assert(part_means.drop_last() =~= means@.subrange(0, i as int));
            assert(part.last() == markouts@[i as int]);
            assert(part_means.last() == means@[i as int]);
        }
        monitor.push_5s(markouts[i]);
        if let Some((from, to)) = monitor.apply_mean(means[i]) {
            effects.push(AnalyticsEffect::SeriesHealth(SeriesHealth { series, mode, from, to }));
        }
        i = i + 1;
        assert(effects@ =~= head + watched(
            m0,
            series,
            mode,
            markouts@.subrange(0, i as int),
            means@.subrange(0, i as int),
        ).1);
    }
    assert(markouts@.subrange(0, markouts@.len() as int) =~= markouts@);
    assert(means@.subrange(0, means@.len() as int) =~= means@);
}

impl Analytics {
    /// Whether the state is consistent.
    pub open spec fn wf(&self) -> bool {
        self@.wf()
    }

    /// A state that has seen nothing.
    pub fn new(mode: Mode, params: AnalyticsParams) -> (r: Analytics)
        ensures
            r.wf(),
            r@ == AnalyticsView::fresh(mode, params),
    {
        let r = Analytics {
            mode,
            params,
            markout: MarkoutEngine::new(params.snapshot_ring_max),
            windows: Table::new(),
            market_meta: Table::new(),
            resolved_markouts: Table::new(),
            rollups: RollupStore::new(),
            adverse: Table::new(),
        };
        assert(r@ =~= AnalyticsView::fresh(mode, params));
        r
    }

    /// Takes an event in and returns the effects to publish.
    pub fn on_event(&mut self, event: &AnalyticsEvent) -> (r: Vec<AnalyticsEffect>)
        requires
            old(self).wf(),
            old(self)@.ready(event@),
        ensures
            final(self).wf(),
            final(self)@ == old(self)@.after(event@),
            r@ == old(self)@.effects(event@),
            event@ matches EventView::Settlement { summary, .. } ==> exact_split(summary)
                ==> old(self)@.attribution(summary).reconciles(),
    {
        self.take(event).unwrap()
    }

    /// Takes an event in and returns the effects to publish; one that does not fit is left, and
    /// nothing changes.
    pub fn take(&mut self, event: &AnalyticsEvent) -> (r: Option<Vec<AnalyticsEffect>>)
        requires
            old(self).wf(),
        ensures
            final(self).wf(),
            r is Some <==> old(self)@.fits(event@),
            r matches Some(effects) ==> final(self)@ == old(self)@.after(event@) && effects@
                == old(self)@.effects(event@),
            r is None ==> final(self)@ == old(self)@,
            old(self)@.ready(event@) ==> r is Some,
            r is Some ==> (event@ matches EventView::Settlement { summary, .. } ==> exact_split(
                summary,
            ) ==> old(self)@.attribution(summary).reconciles()),
    {
        match event {
            AnalyticsEvent::Window { window, meta, lifecycle } => {
                if let WindowLifecycle::Resolved { .. } = lifecycle {
                    let waiting: u64 = self.markout.waiting_fills(*window) as u64;
                    if self.markout.no_anchor_dropped() > u64::MAX - waiting {
                        return None;
                    }
                }
                Some(self.on_window(*window, *meta, *lifecycle))
            },
            AnalyticsEvent::Fill(fill) => {
                if self.on_fill(fill) {
                    Some(Vec::new())
                } else {
                    None
                }
            },
            AnalyticsEvent::Model { of, ts_ms, p_up } => {
                if let Some(w) = of {
                    self.markout.on_snapshot(*w, *ts_ms, *p_up);
                }
                Some(Vec::new())
            },
            AnalyticsEvent::Settlement { summary, markouts, means } => self.settle(
                summary,
                markouts,
                means,
            ),
            AnalyticsEvent::Other => Some(Vec::new()),
        }
    }

    /// The accumulator of a window.
    fn attrib_of(&self, window: WindowId) -> (r: WindowAttrib)
        requires
            self.wf(),
        ensures
            r == self@.attrib(window),
    {
        match self.windows.get(&window) {
            Some(a) => *a,
            None => WindowAttrib::new(window),
        }
    }

    /// Folds journaled events, without publishing anything; there is no state where one of them does
    /// not fit.
    pub fn restore(mode: Mode, params: AnalyticsParams, events: &Vec<AnalyticsEvent>) -> (r: Option<
        Analytics,
    >)
        ensures
            r is Some <==> forall|k: int|
                0 <= k < events@.len() ==> #[trigger] fits_at(
                    AnalyticsView::fresh(mode, params),
                    event_views(events@),
                    k,
                ),
            r matches Some(a) ==> a.wf() && a@ == folded(
                AnalyticsView::fresh(mode, params),
                event_views(events@),
            ),
    {
        let mut analytics = Analytics::new(mode, params);
        let ghost s0 = AnalyticsView::fresh(mode, params);
        let ghost all = event_views(events@);
        let mut i: usize = 0;
        assert(all.subrange(0, 0) =~= Seq::empty());
        while i < events.len()
            invariant
                i <= events@.len(),
                s0 == AnalyticsView::fresh(mode, params),
                all == event_views(events@),
                analytics.wf(),
                analytics@ == folded(s0, all.subrange(0, i as int)),
                forall|k: int| 0 <= k < i ==> #[trigger] fits_at(s0, all, k),
            decreases events.len() - i,
        {
            proof {
                let part = all.subrange(0, i + 1);
                assert(part.drop_last() =~= all.subrange(0, i as int));
                assert(part.last() == all[i as int]);
                assert(all[i as int] == events@[i as int]@);
            }
            match analytics.take(&events[i]) {
                Some(_) => {
                    assert(fits_at(s0, all, i as int));
                },
                None => {
                    assert(!fits_at(s0, all, i as int));
                    return None;
                },
            }
            i = i + 1;
        }
        assert(all.subrange(0, all.len() as int) =~= all);
        Some(analytics)
    }

    /// Takes a market event in.
    fn on_window(&mut self, window: WindowId, meta: MarketMeta, lifecycle: WindowLifecycle) -> (r:
        Vec<AnalyticsEffect>)
        requires
            old(self).wf(),
            old(self)@.ready((EventView::Window { window, meta, lifecycle })),
        ensures
            final(self).wf(),
            final(self)@ == old(self)@.with_window(window, meta, lifecycle),
            r@ == old(self)@.effects((EventView::Window { window, meta, lifecycle })),
    {
        let ghost before = self@;
        self.market_meta.insert(window, meta);
        if let WindowLifecycle::Resolved { outcome } = lifecycle {
            let fms = self.markout.on_resolved(window, outcome, meta.close_ms);
            assert(fms@ == before.marked_out(window, outcome, meta.close_ms));
            let mut effects: Vec<AnalyticsEffect> = Vec::new();
            let mut i: usize = 0;
            while i < fms.len()
                invariant
                    i <= fms@.len(),
                    effects@ == as_effects(fms@.subrange(0, i as int)),
                decreases fms.len() - i,
            {
                effects.push(AnalyticsEffect::FillMarkout(fms[i]));
                i = i + 1;
                assert(effects@ =~= as_effects(fms@.subrange(0, i as int)));
            }
            assert(fms@.subrange(0, fms@.len() as int) =~= fms@);
            if self.windows.contains(&window) {
                self.resolved_markouts.insert(window, fms);
            } else {
                let _ = self.market_meta.remove(&window);
            }
            return effects;
        }
        Vec::new()
    }

    /// Takes a fill in, where it fits.
    fn on_fill(&mut self, fill: &Fill) -> (r: bool)
        requires
            old(self).wf(),
        ensures
            final(self).wf(),
            r == old(self)@.fits((EventView::Fill(*fill))),
            r ==> final(self)@ == old(self)@.with_fill(*fill),
            !r ==> final(self)@ == old(self)@,
            old(self)@.ready((EventView::Fill(*fill))) ==> r,
    {
        let ghost before = self@;
        let fee_rate = match self.market_meta.get(&fill.window) {
            Some(m) => m.fee_rate,
            None => self.params.default_fee_rate.amount(),
        };
        let attrib = match self.attrib_of(fill.window).checked_fill(fill, &fee_rate) {
            Some(a) => a,
            None => return false,
        };
        self.windows.insert(fill.window, attrib);
        if fill.liquidity == Liquidity::Maker {
            self.markout.on_fill(fill.window, fill.outcome, fill.side, fill.ts_venue_ms);
        }
        assert(self@ =~= before.with_fill(*fill));
        true
    }

    /// Closes a settled window, where the settlement fits.
    fn settle(&mut self, summary: &SettlementSummary, markouts: &Vec<i64>, means: &Vec<i64>) -> (r:
        Option<Vec<AnalyticsEffect>>)
        requires
            old(self).wf(),
        ensures
            final(self).wf(),
            ({
                let e = EventView::Settlement {
                    summary: *summary,
                    markouts: markouts@,
                    means: means@,
                };
                &&& r is Some <==> old(self)@.fits(e)
                &&& old(self)@.ready(e) ==> r is Some
                &&& r matches Some(effects) ==> effects@ == old(self)@.effects(e)
            }),
            r is Some ==> final(self)@ == old(self)@.with_settlement(*summary, markouts@, means@),
            r is Some ==> exact_split(*summary) ==> old(self)@.attribution(*summary).reconciles(),
            r is None ==> final(self)@ == old(self)@,
    {
        let ghost before = self@;
        let window = summary.window;
        let series = window.series;
        let marked: usize = match self.resolved_markouts.get(&window) {
            Some(f) => f.len(),
            None => 0,
        };
        let seen: u64 = match self.adverse.get(&series) {
            Some(m) => m.sample_count(),
            None => 0,
        };
        if markouts.len() != marked || markouts.len() != means.len() || seen > u64::MAX
            - markouts.len() as u64 {
            return None;
        }
        let attrib = self.attrib_of(window);
        let rebate_rate = match self.market_meta.get(&window) {
            Some(m) => m.rebate_rate,
            None => self.params.default_rebate_rate.amount(),
        };
        let split = WindowAttribution::checked_from_summary(
            summary,
            self.mode,
            attrib.maker_rebate_base(),
            rebate_rate,
            attrib.maker_fills(),
            attrib.taker_fills(),
            attrib.taker_notional(),
        );
        let attribution = match split {
            Some(a) => a,
            None => return None,
        };
        assert(attribution == before.attribution(*summary));
        if !self.rollups.checked_fold(&attribution, markouts) {
            return None;
        }
        let _ = self.windows.remove(&window);
        let _ = self.resolved_markouts.remove(&window);
        let mut effects: Vec<AnalyticsEffect> = Vec::new();
        effects.push(AnalyticsEffect::WindowSettled(attribution));
        assert(effects@ =~= seq![AnalyticsEffect::WindowSettled(attribution)]);
        let ghost adverse = self.adverse@;
        match self.adverse.find(&series) {
            Some(i) => {
                proof {
                    crate::table::lemma_place(adverse, series, i as int);
                }
                watch(
                    self.adverse.value_mut(i),
                    series,
                    self.mode,
                    markouts,
                    means,
                    &mut effects,
                );
            },
            None => {
                let mut monitor = AdverseSelectionMonitor::new(self.params.adverse);
                watch(&mut monitor, series, self.mode, markouts, means, &mut effects);
                self.adverse.insert(series, monitor);
            },
        }
        assert(self.adverse@ =~= before.with_settlement(*summary, markouts@, means@).adverse);
        let _ = self.market_meta.remove(&window);
        Some(effects)
    }

    /// Folds journaled events, without publishing anything.
    pub fn rebuild(mode: Mode, params: AnalyticsParams, events: &Vec<AnalyticsEvent>) -> (r:
        Analytics)
        requires
            all_ready(AnalyticsView::fresh(mode, params), event_views(events@)),
        ensures
            r.wf(),
            r@ == folded(AnalyticsView::fresh(mode, params), event_views(events@)),
    {
        let mut analytics = Analytics::new(mode, params);
        let ghost s0 = AnalyticsView::fresh(mode, params);
        let ghost all = event_views(events@);
        let mut i: usize = 0;
        assert(all.subrange(0, 0) =~= Seq::empty());
        while i < events.len()
            invariant
                i <= events@.len(),
                all == event_views(events@),
                all_ready(s0, all),
                analytics.wf(),
                analytics@ == folded(s0, all.subrange(0, i as int)),
            decreases events.len() - i,
        {
            proof {
                let part = all.subrange(0, i + 1);
                assert(part.drop_last() =~= all.subrange(0, i as int));
                assert(part.last() == all[i as int]);
                assert(all[i as int] == events@[i as int]@);
                assert(ready_at(s0, all, i as int));
            }
            let _ = analytics.on_event(&events[i]);
            i = i + 1;
        }
        assert(all.subrange(0, all.len() as int) =~= all);
        analytics
    }

    /// The markouts of a resolved window that has not settled.
    pub fn resolved_markouts(&self, window: WindowId) -> (r: Vec<FillMarkout>)
        requires
            self.wf(),
        ensures
            r@ == self@.resolved_fills(window),
    {
        let mut out: Vec<FillMarkout> = Vec::new();
        match self.resolved_markouts.get(&window) {
            Some(fms) => {
                let mut i: usize = 0;
                while i < fms.len()
                    invariant
                        i <= fms@.len(),
                        out@ == fms@.subrange(0, i as int),
                    decreases fms.len() - i,
                {
                    out.push(fms[i]);
                    i = i + 1;
                    assert(out@ =~= fms@.subrange(0, i as int));
                }
                assert(out@ =~= fms@);
            },
            None => {
                assert(out@ =~= self@.resolved_fills(window));
            },
        }
        out
    }

    /// The markouts that a series' rolling mean is taken over, as order keys, oldest first.
    pub fn recent_markouts(&self, series: Series) -> (r: Vec<i64>)
        requires
            self.wf(),
        ensures
            r@ == self@.monitor(series).recent,
    {
        match self.adverse.get(&series) {
            Some(m) => m.recent(),
            None => {
                let out: Vec<i64> = Vec::new();
                assert(out@ =~= self@.monitor(series).recent);
                out
            },
        }
    }

    /// The roll-up of a series' day.
    pub fn daily(&self, series: Series, day: DayKey) -> (r: Option<&DailyRollup>)
        requires
            self.wf(),
        ensures
            match r {
                Some(d) => lookup(self@.rollups, (crate::datekey::SeriesDay { series, day }))
                    == Some(d@),
                None => lookup(self@.rollups, (crate::datekey::SeriesDay { series, day })) is None,
            },
    {
        self.rollups.daily(series, day)
    }

    /// The alarm state of a series.
    pub fn series_health(&self, series: Series) -> (r: AdverseSelectionState)
        requires
            self.wf(),
        ensures
            r == health_of(self@, series),
    {
        match self.adverse.get(&series) {
            Some(m) => m.state(),
            None => AdverseSelectionState::InsufficientSample,
        }
    }

    /// The rows of some aggregates, `None` where one of them has none.
    fn rows(&self, aggregates: &Vec<SeriesAggregate>) -> (r: Option<Vec<SeriesComparisonRow>>)
        requires
            self.wf(),
        ensures
            r is Some <==> have_rows(self@, views(aggregates@)),
            r matches Some(rows) ==> are_rows(self@, views(aggregates@), rows@),
            rows_fit(self@) && (forall|i: int|
                0 <= i < aggregates@.len() ==> (#[trigger] aggregates@[i])@.at_most(
                    days_in(self@.rollups),
                )) ==> r is Some,
    {
        let mut out: Vec<SeriesComparisonRow> = Vec::new();
        let mut i: usize = 0;
        while i < aggregates.len()
            invariant
                self.wf(),
                i <= aggregates@.len(),
                forall|j: int|
                    0 <= j < i ==> has_row(
                        #[trigger] views(aggregates@)[j],
                        self@.params.taker_budget_per_window,
                    ),
                are_rows(self@, views(aggregates@).subrange(0, i as int), out@),
            decreases aggregates.len() - i,
        {
            let agg = &aggregates[i];
            let health = self.series_health(agg.series);
            proof {
                crate::rollup::lemma_load(agg@.totals);
                assert(views(aggregates@)[i as int] == agg@);
            }
            let row = match agg.checked_row(
                self.params.min_sample_windows,
                &self.params.taker_budget_per_window,
                health,
            ) {
                Some(row) => row,
                None => {
                    assert(!has_row(
                        views(aggregates@)[i as int],
                        self@.params.taker_budget_per_window,
                    ));
                    assert(aggregates@[i as int]@ == agg@);
                    return None;
                },
            };
            let ghost before = out@;
            let ghost part = views(aggregates@).subrange(0, i as int);
            out.push(row);
            proof {
                let next = views(aggregates@).subrange(0, i + 1);
                assert forall|j: int| 0 <= j < out@.len() implies is_row(
                    next[j],
                    self@.params.min_sample_windows,
                    self@.params.taker_budget_per_window,
                    health_of(self@, next[j].series),
                    #[trigger] out@[j],
                ) by {
                    if j < i {
                        assert(out@[j] == before[j]);
                        assert(next[j] == part[j]);
                    }
                }
            }
            i = i + 1;
        }
        assert(views(aggregates@).subrange(0, i as int) =~= views(aggregates@));
        Some(out)
    }

    /// The comparison rows over every day, one for each series that traded, in series order.
    pub fn series_comparison(&self) -> (r: Vec<SeriesComparisonRow>)
        requires
            self.wf(),
            rows_fit(self@),
        ensures
            exists|picks: Seq<usize>, today: DayKey|
                #![trigger is_selection(self@.rollups, ComparisonWindow::All, today, picks)]
                is_selection(self@.rollups, ComparisonWindow::All, today, picks) && are_rows(
                    self@,
                    grouped(picked(self@.rollups, picks)),
                    r@,
                ),
    {
        let aggregates = self.rollups.series_aggregates();
        self.rows(&aggregates).unwrap()
    }

    /// The comparison rows over the days that a window covers, in series order; `None` where a
    /// figure of theirs is beyond the largest decimal.
    pub fn checked_comparison_rows(&self, window: ComparisonWindow, today: DayKey) -> (r: Option<
        Vec<SeriesComparisonRow>,
    >)
        requires
            self.wf(),
            window is LastDays ==> today.days() - window->LastDays_0 >= i64::MIN,
        ensures
            r is Some <==> has_rows(self@, window, today),
            r matches Some(rows) ==> exists|picks: Seq<usize>|
                #![trigger picked(self@.rollups, picks)]
                is_selection(self@.rollups, window, today, picks) && are_rows(
                    self@,
                    grouped(picked(self@.rollups, picks)),
                    rows@,
                ),
            rows_fit(self@) ==> r is Some,
    {
        let aggregates = self.rollups.checked_aggregates_over(window, today);
        let days: usize = self.rollups.len();
        let ghost store = self@.rollups;
        let ghost picks = choose|picks: Seq<usize>|
            #![trigger picked(store, picks)]
            is_selection(store, window, today, picks) && (aggregates is Some <==> has_groups(
                picked(store, picks),
            )) && (aggregates matches Some(v) ==> views(v@) == grouped(picked(store, picks)));
        let r = match &aggregates {
            Some(v) => self.rows(v),
            None => None,
        };
        proof {
            if has_rows(self@, window, today) {
                let other = choose|other: Seq<usize>|
                    #![trigger picked(store, other)]
                    is_selection(store, window, today, other) && has_groups(picked(store, other))
                        && have_rows(self@, grouped(picked(store, other)));
                crate::rollup::law_one_selection(store, window, today, picks, other);
            }
            assert(is_selection(store, window, today, picks));
        }
        r
    }

    /// The comparison over the days that a window covers, best first by net PnL. `keys` holds
    /// the order key of each series' net PnL.
    pub fn series_comparison_over(
        &self,
        window: ComparisonWindow,
        today: DayKey,
        keys: &Table<Series, i64>,
    ) -> (r: SeriesComparison)
        requires
            self.wf(),
            rows_fit(self@),
            keys.wf(),
            window is LastDays ==> today.days() - window->LastDays_0 >= i64::MIN,
        ensures
            is_comparison(self@, window, today, keys@, r),
    {
        self.checked_comparison_over(window, today, keys).unwrap()
    }

    /// The comparison over the days that a window covers, best first by net PnL; `None` where a
    /// figure of it is beyond the largest decimal. `keys` holds the order key of each series' net
    /// PnL.
    pub fn checked_comparison_over(
        &self,
        window: ComparisonWindow,
        today: DayKey,
        keys: &Table<Series, i64>,
    ) -> (r: Option<SeriesComparison>)
        requires
            self.wf(),
            keys.wf(),
            window is LastDays ==> today.days() - window->LastDays_0 >= i64::MIN,
        ensures
            r is Some <==> has_rows(self@, window, today),
            r matches Some(c) ==> is_comparison(self@, window, today, keys@, c),
            rows_fit(self@) ==> r is Some,
    {
        let rows = match self.checked_comparison_rows(window, today) {
            Some(rows) => rows,
            None => return None,
        };
        let mut row_keys: Vec<i64> = Vec::new();
        let mut i: usize = 0;
        while i < rows.len()
            invariant
                keys.wf(),
                i <= rows@.len(),
                row_keys@ == keys_of(keys@, rows@).subrange(0, i as int),
            decreases rows.len() - i,
        {
            let k: i64 = match keys.get(&rows[i].series) {
                Some(k) => *k,
                None => i64::MIN,
            };
            row_keys.push(k);
            i = i + 1;
            assert(row_keys@ =~= keys_of(keys@, rows@).subrange(0, i as int));
        }
        assert(row_keys@ =~= keys_of(keys@, rows@));
        let ghost all = rows@;
        let r = SeriesComparison::new(window, today, rows, &row_keys, SortColumn::default());
        proof {
            let picks = choose|picks: Seq<usize>|
                #![trigger picked(self@.rollups, picks)]
                is_selection(self@.rollups, window, today, picks) && are_rows(
                    self@,
                    grouped(picked(self@.rollups, picks)),
                    all,
                );
            let order = choose|order: Seq<int>|
                #![trigger is_sorting(all, row_keys@, order)]
                is_sorting(all, row_keys@, order) && r.rows@ == order.map_values(|i: int| all[i]);
            assert(is_sorting(all, keys_of(keys@, all), order));
            assert(is_selection(self@.rollups, window, today, picks));
        }
        Some(r)
    }

    /// How many announced windows have neither settled nor gone by untraded.
    pub fn known_markets(&self) -> (r: usize)
        ensures
            r == self@.meta.len(),
    {
        self.market_meta.len()
    }

    /// The session's mode.
    pub fn mode(&self) -> (r: Mode)
        ensures
            r == self@.mode,
    {
        self.mode
    }

    /// The roll-ups.
    pub fn rollups(&self) -> (r: &RollupStore)
        ensures
            r@ == self@.rollups,
    {
        &self.rollups
    }

    /// How many passive fills have been dropped for want of an anchor.
    pub fn no_anchor_dropped(&self) -> (r: u64)
        ensures
            r == self@.markout.no_anchor_dropped,
    {
        self.markout.no_anchor_dropped()
    }
}

/// A market's own rates hold for its windows; where it is not known, the configured ones do.
pub proof fn law_rates_are_the_markets_own(s: AnalyticsView, window: WindowId)
    ensures
        lookup(s.meta, window) matches Some(m) ==> s.fee_rate(window) == m.fee_rate && s.rebate_rate(
            window,
        ) == m.rebate_rate,
        lookup(s.meta, window) is None ==> s.fee_rate(window)
            == s.params.default_fee_rate.amount_spec() && s.rebate_rate(window)
            == s.params.default_rebate_rate.amount_spec(),
{
}

/// Analytics begin with nothing booked, and keep at least one reading of a window.
pub proof fn law_analytics_begin_with_nothing(mode: Mode, params: AnalyticsParams)
    ensures
        ({
            let s = AnalyticsView::fresh(mode, params);
            &&& s.mode == mode && s.params == params
            &&& s.markout.ring_max >= 1
            &&& params.snapshot_ring_max >= 1 ==> s.markout.ring_max == params.snapshot_ring_max
            &&& s.markout.no_anchor_dropped == 0 && s.markout.windows.len() == 0
            &&& s.windows.len() == 0 && s.meta.len() == 0 && s.resolved.len() == 0
            &&& s.rollups.len() == 0 && s.adverse.len() == 0
        }),
{
}

/// A series' health is what its monitor says, and that the sample is too small where it has none.
pub proof fn law_health_is_of_the_series(s: AnalyticsView, series: Series)
    ensures
        lookup(s.adverse, series) matches Some(m) ==> health_of(s, series) == m.state,
        lookup(s.adverse, series) is None ==> health_of(s, series)
            == AdverseSelectionState::InsufficientSample,
{
}

/// A row sorts by its own series' key, and behind every other where there is none.
pub proof fn law_row_sorts_by_its_series(
    keys: Seq<(Series, i64)>,
    rows: Seq<SeriesComparisonRow>,
    i: int,
)
    requires
        0 <= i < rows.len(),
    ensures
        keys_of(keys, rows).len() == rows.len(),
        lookup(keys, rows[i].series) matches Some(k) ==> keys_of(keys, rows)[i] == k,
        lookup(keys, rows[i].series) is None ==> keys_of(keys, rows)[i] == i64::MIN,
{
}

/// Each row is of its own aggregate and of its own series' health.
pub proof fn law_rows_are_of_their_aggregates(
    s: AnalyticsView,
    aggregates: Seq<AggregateView>,
    rows: Seq<SeriesComparisonRow>,
    i: int,
)
    requires
        are_rows(s, aggregates, rows),
        0 <= i < rows.len(),
    ensures
        rows.len() == aggregates.len(),
        rows[i].series == aggregates[i].series,
        rows[i].net_pnl == aggregates[i].totals.net_realized,
        rows[i].health == health_of(s, aggregates[i].series),
        rows[i].min_sample_warning <==> aggregates[i].totals.windows_traded
            < s.params.min_sample_windows,
{
}

} // verus!
