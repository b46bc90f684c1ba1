//! Replaying a recorded tape, and sweeping parameters over one.
//!
//! The tape's records drive a clock of their own. What runs between the steps (the engine and
//! the venue) is the caller's: a [`ReplayDriver`] says what comes next, from the tape and from
//! the counts that the caller has seen, and nothing else.

use vstd::prelude::*;

use crate::datekey::DayKey;
use crate::decimal::Amount;
use crate::engine::{
    folded, has_rows, is_comparison, law_one_comparison, Analytics, AnalyticsView, EventView,
};
use crate::params::AnalyticsParams;
use crate::rollup::{
    budget_share, checked_per_window, has_per_window, per_window_of, same_row, same_rows,
    ComparisonWindow, SeriesComparison, SeriesComparisonRow, SortColumn, SortFigure,
};
use crate::sorting::{in_order, is_strict, law_one_order, lemma_every_place};
use crate::table::Table;
use crate::types::{Mode, Series};

verus! {

/// Rounds at the end of a tape.
pub const FLUSH_ROUNDS: u64 = 8;

/// Why a replay could not run.
#[derive(Clone, Debug)]
pub enum ReplayError {
    /// The tape has no record.
    EmptyTape,
    /// The paper venue has no seed.
    UnseededPaper,
    /// The runtime could not be built.
    Runtime(String),
    /// A worker of a sweep failed.
    Worker,
}

impl ReplayError {
    /// The error in words.
    pub open spec fn text_spec(self) -> Seq<char> {
        match self {
            ReplayError::EmptyTape => "empty tape"@,
            ReplayError::UnseededPaper =>
                "paper rng_seed must be Some for a deterministic replay"@,
            ReplayError::Runtime(e) => "building the replay runtime: "@ + e@,
            ReplayError::Worker => "a sweep worker thread failed"@,
        }
    }

    /// The error in words.
    pub fn text(&self) -> (r: String)
        ensures
            r@ == self.text_spec(),
    {
        match self {
            ReplayError::EmptyTape => "empty tape".to_string(),
            ReplayError::UnseededPaper =>
                "paper rng_seed must be Some for a deterministic replay".to_string(),
            ReplayError::Runtime(e) => crate::text::join2(
                "building the replay runtime: ",
                e.as_str(),
            ),
            ReplayError::Worker => "a sweep worker thread failed".to_string(),
        }
    }
}

/// What a record of a tape is.
#[derive(Clone, Copy, PartialEq, Eq, Structural, Debug)]
pub enum RecordKind {
    /// A market event.
    Window,
    /// A model reading.
    Model,
    /// An order update.
    OrderUpdate,
    /// A fill.
    Fill,
    /// An inventory report.
    Inventory,
    /// A settlement.
    Settlement,
    /// An audit of a control command.
    ControlAudit,
    /// Any other record.
    Other,
}

impl RecordKind {
    /// Whether the engine and the venue give the record out again when they are run again.
    pub open spec fn is_output(self) -> bool {
        self is OrderUpdate || self is Fill || self is Inventory || self is Settlement
            || self is ControlAudit
    }
}

/// Whether a record is fed to a replay. What the replay gives out again is not.
pub fn is_replay_input(kind: RecordKind) -> (r: bool)
    ensures
        r == !kind.is_output(),
        kind == RecordKind::OrderUpdate || kind == RecordKind::Fill || kind
            == RecordKind::Inventory || kind == RecordKind::Settlement || kind
            == RecordKind::ControlAudit ==> !r,
        kind == RecordKind::Window || kind == RecordKind::Model || kind == RecordKind::Other ==> r,
{
    match kind {
        RecordKind::OrderUpdate | RecordKind::Fill | RecordKind::Inventory
        | RecordKind::Settlement | RecordKind::ControlAudit => false,
        _ => true,
    }
}

/// Who takes a fed record in besides the venue and the engine.
#[derive(Clone, Copy, PartialEq, Eq, Structural, Debug)]
pub struct Sinks {
    /// The analytics.
    pub analytics: bool,
    /// The inventory, whose settlements go to the analytics.
    pub inventory: bool,
}

/// Who takes a fed record in: a market event goes to both, a model reading to the analytics.
pub fn sinks(kind: RecordKind) -> (r: Sinks)
    ensures
        r.analytics == (kind is Window || kind is Model),
        r.inventory == (kind is Window),
{
    match kind {
        RecordKind::Window => Sinks { analytics: true, inventory: true },
        RecordKind::Model => Sinks { analytics: true, inventory: false },
        _ => Sinks { analytics: false, inventory: false },
    }
}

/// A record of a tape.
#[derive(Clone, Copy, PartialEq, Eq, Structural, Debug)]
pub struct TapeRecord {
    /// When it was recorded, Unix milliseconds.
    pub ts_ms: i64,
    /// What it is.
    pub kind: RecordKind,
}

/// What a replay goes by.
#[derive(Clone, Copy, PartialEq, Eq, Structural, Debug)]
pub struct ReplayConfig {
    /// The least edge that a quote must have.
    pub min_edge: Amount,
    /// The strength of the inventory skew, as an order key.
    pub gamma: i64,
    /// The threshold for repricing, as an order key.
    pub reprice_theta: i64,
    /// The threshold for cancelling a market's quotes, as an order key.
    pub cancel_market_theta: i64,
    /// The taker's buffer.
    pub momentum_buffer: Amount,
    /// The seed of the paper venue.
    pub rng_seed: Option<u64>,
    /// The mean placement latency of the paper venue, milliseconds.
    pub placement_ms: i64,
    /// The mean cancel latency of the paper venue, milliseconds.
    pub cancel_ms: i64,
    /// Analytics tuning.
    pub analytics: AnalyticsParams,
    /// The mode that the output carries.
    pub mode: Mode,
    /// The time between risk ticks, milliseconds.
    pub risk_tick_ms: i64,
    /// The days that the output covers.
    pub comparison_window: ComparisonWindow,
}

/// Whether a replay can run: the tape has a record and the paper venue a seed.
pub fn check_replay(records: usize, config: &ReplayConfig) -> (r: Result<(), ReplayError>)
    ensures
        records == 0 ==> r == Err::<(), ReplayError>(ReplayError::EmptyTape),
        records > 0 && config.rng_seed is None ==> r == Err::<(), ReplayError>(
            ReplayError::UnseededPaper,
        ),
        records > 0 && config.rng_seed is Some ==> r is Ok,
{
    if records == 0 {
        return Err(ReplayError::EmptyTape);
    }
    if config.rng_seed.is_none() {
        return Err(ReplayError::UnseededPaper);
    }
    Ok(())
}

/// What a replay has done.
#[derive(Clone, Copy, PartialEq, Eq, Structural, Debug)]
pub struct ReplaySummary {
    /// Records of the tape.
    pub events_total: u64,
    /// Records that were not fed.
    pub events_dropped: u64,
    /// Fills.
    pub fills: u64,
    /// Order updates.
    pub order_updates: u64,
    /// Windows settled.
    pub windows_settled: u64,
    /// Net ledger PnL over the rows.
    pub net_pnl: Amount,
    /// The first record's time, Unix milliseconds.
    pub first_event_ms: i64,
    /// The last record's time, Unix milliseconds.
    pub last_event_ms: i64,
}

impl ReplaySummary {
    /// The summary of a tape that has not run.
    pub fn new(events_total: u64, first_event_ms: i64, last_event_ms: i64) -> (r: ReplaySummary)
        ensures
            r == (ReplaySummary {
                events_total,
                events_dropped: 0,
                fills: 0,
                order_updates: 0,
                windows_settled: 0,
                net_pnl: Amount::zero_spec(),
                first_event_ms,
                last_event_ms,
            }),
    {
        ReplaySummary {
            events_total,
            events_dropped: 0,
            fills: 0,
            order_updates: 0,
            windows_settled: 0,
            net_pnl: Amount::zero(),
            first_event_ms,
            last_event_ms,
        }
    }

    /// The summary at the end.
    pub open spec fn finished_spec(
        self,
        dropped: u64,
        seen: Seen,
        rows: Seq<SeriesComparisonRow>,
    ) -> ReplaySummary {
        ReplaySummary {
            events_dropped: dropped,
            fills: seen.fills,
            order_updates: seen.order_updates,
            windows_settled: seen.windows_settled,
            net_pnl: money(rows, by_net_pnl()),
            ..self
        }
    }

    /// The summary at the end: with what was dropped and seen, and the rows' net PnL; `None` where
    /// that is beyond the largest decimal.
    pub fn checked_finished(&self, dropped: u64, seen: Seen, rows: &Vec<SeriesComparisonRow>) -> (r:
        Option<ReplaySummary>)
        ensures
            r is Some <==> has_money(rows@, by_net_pnl()),
            r matches Some(summary) ==> summary == self.finished_spec(dropped, seen, rows@),
    {
        let mut net = Amount::zero();
        let mut i: usize = 0;
        assert(rows@.subrange(0, 0) =~= Seq::empty());
        while i < rows.len()
            invariant
                i <= rows@.len(),
                net == money(rows@.subrange(0, i as int), by_net_pnl()),
                has_money(rows@.subrange(0, i as int), by_net_pnl()),
            decreases rows.len() - i,
        {
            proof {
                lemma_prefix(rows@, i as int);
                lemma_money_of_first(rows@, by_net_pnl(), i + 1);
            }
            net =
            match net.checked_plus(&rows[i].net_pnl) {
                Some(sum) => sum,
                None => return None,
            };
            i = i + 1;
        }
        assert(rows@.subrange(0, i as int) =~= rows@);
        Some(
            ReplaySummary {
                events_dropped: dropped,
                fills: seen.fills,
                order_updates: seen.order_updates,
                windows_settled: seen.windows_settled,
                net_pnl: net,
                ..*self
            },
        )
    }

    /// The summary at the end: with what was dropped and seen, and the rows' net PnL.
    pub fn finished(&self, dropped: u64, seen: Seen, rows: &Vec<SeriesComparisonRow>) -> (r:
        ReplaySummary)
        requires
            has_money(rows@, by_net_pnl()),
        ensures
            r == self.finished_spec(dropped, seen, rows@),
    {
        self.checked_finished(dropped, seen, rows).unwrap()
    }
}

/// What a replay gives out.
#[derive(Clone, Debug)]
pub struct ReplayOutput {
    /// The comparison.
    pub comparison: SeriesComparison,
    /// The summary.
    pub summary: ReplaySummary,
}

/// What the caller has seen come out of the venue and the inventory.
#[derive(Clone, Copy, PartialEq, Eq, Structural, Debug)]
pub struct Seen {
    /// Fills.
    pub fills: u64,
    /// Order updates.
    pub order_updates: u64,
    /// Windows settled.
    pub windows_settled: u64,
}

/// What the venue gave out.
#[derive(Clone, Copy, PartialEq, Eq, Structural, Debug)]
pub enum VenueReport {
    /// An order update.
    Order,
    /// A fill.
    Fill,
    /// A change of the connection.
    Connectivity,
}

/// Who takes in, besides the engine, what the venue gave out: a fill goes to the analytics and
/// the inventory, and nothing else goes to either.
pub fn report_sinks(report: VenueReport) -> (r: Sinks)
    ensures
        r.analytics == (report is Fill),
        r.inventory == (report is Fill),
{
    match report {
        VenueReport::Fill => Sinks { analytics: true, inventory: true },
        VenueReport::Order | VenueReport::Connectivity => Sinks {
            analytics: false,
            inventory: false,
        },
    }
}

impl Seen {
    /// Nothing yet.
    pub fn none() -> (r: Seen)
        ensures
            r == (Seen { fills: 0, order_updates: 0, windows_settled: 0 }),
    {
        Seen { fills: 0, order_updates: 0, windows_settled: 0 }
    }

    /// Counts what the venue gave out.
    pub fn on_report(&mut self, report: VenueReport)
        requires
            old(self).fills < u64::MAX,
            old(self).order_updates < u64::MAX,
        ensures
            *final(self) == (Seen {
                fills: (old(self).fills + if report is Fill {
                    1int
                } else {
                    0
                }) as u64,
                order_updates: (old(self).order_updates + if report is Order {
                    1int
                } else {
                    0
                }) as u64,
                ..*old(self)
            }),
    {
        match report {
            VenueReport::Order => {
                self.order_updates = self.order_updates + 1;
            },
            VenueReport::Fill => {
                self.fills = self.fills + 1;
            },
            VenueReport::Connectivity => {},
        }
    }

    /// Counts a window that the inventory settled.
    pub fn on_settled(&mut self)
        requires
            old(self).windows_settled < u64::MAX,
        ensures
            *final(self) == (Seen {
                windows_settled: (old(self).windows_settled + 1) as u64,
                ..*old(self)
            }),
    {
        self.windows_settled = self.windows_settled + 1;
    }
}

/// What comes next in a replay.
#[derive(Clone, Copy, PartialEq, Eq, Structural, Debug)]
pub enum DriveAction {
    /// Let the clock run for so many milliseconds; for zero, leave it.
    Advance(u64),
    /// Take in whatever the venue has given out.
    Drain,
    /// Let the engine tick.
    Tick,
    /// Feed the record at a place of the tape.
    Feed(usize),
    /// Leave the record at a place of the tape out.
    Skip(usize),
    /// The replay is over.
    Done,
}

/// Where a replay stands.
#[derive(Clone, Copy, PartialEq, Eq, Structural, Debug)]
pub enum DrivePhase {
    /// Before a tick that is due, or else the record.
    Pending,
    /// The clock is at a tick.
    AtTick,
    /// The venue is drained before a tick.
    TickReady,
    /// The tick was let through.
    Ticked,
    /// The clock is at the record.
    AtRecord,
    /// The venue is drained before the record.
    RecordReady,
    /// The record was fed.
    Fed,
    /// The clock ran on after the tape.
    Flushing,
    /// The venue is drained after the tape.
    Flushed,
    /// Over.
    Finished,
}

/// Runs a tape: ticks come at their cadence between the records, the venue is drained before and
/// after each, and after the tape the clock runs on for as long as anything still comes out, for
/// eight rounds at most.
#[derive(Clone, Copy, PartialEq, Eq, Structural, Debug)]
pub struct ReplayDriver {
    /// The time between ticks, at least one millisecond.
    pub tick_ms: i64,
    /// The time that a round after the tape takes.
    pub grace_ms: i64,
    /// The last tick.
    pub last_tick: i64,
    /// The clock.
    pub clock_ms: i64,
    /// The place of the record that comes next.
    pub at: usize,
    /// Where the replay stands.
    pub phase: DrivePhase,
    /// Rounds run after the tape.
    pub round: u64,
    /// What had been seen at the start of the round.
    pub before: Seen,
    /// Records dropped.
    pub dropped: u64,
}

/// A sum that stays at the largest value.
pub open spec fn sum_capped(a: i64, b: i64) -> i64 {
    if a + b > i64::MAX {
        i64::MAX
    } else if a + b < i64::MIN {
        i64::MIN
    } else {
        (a + b) as i64
    }
}

/// A sum that stays at the largest value.
fn capped(a: i64, b: i64) -> (r: i64)
    ensures
        r == sum_capped(a, b),
{
    let sum: i128 = a as i128 + b as i128;
    if sum > i64::MAX as i128 {
        i64::MAX
    } else if sum < i64::MIN as i128 {
        i64::MIN
    } else {
        sum as i64
    }
}

/// How long a clock runs to a target: not at all where it is there or past it.
pub open spec fn gap(clock: int, target: int) -> u64 {
    if target > clock {
        (target - clock) as u64
    } else {
        0
    }
}

/// How many of the first `n` records are ones that the replay gives out again.
pub open spec fn outputs_before(tape: Seq<TapeRecord>, n: int) -> int
    decreases n,
{
    if n <= 0 {
        0
    } else {
        outputs_before(tape, n - 1) + if tape[n - 1].kind.is_output() {
            1int
        } else {
            0
        }
    }
}

/// There are no more outputs than records.
proof fn lemma_outputs_before(tape: Seq<TapeRecord>, n: int)
    requires
        0 <= n,
    ensures
        0 <= outputs_before(tape, n) <= n,
    decreases n,
{
    if n > 0 {
        lemma_outputs_before(tape, n - 1);
    }
}

impl ReplayDriver {
    /// The clock let run to a target.
    pub open spec fn advanced(self, target: i64, phase: DrivePhase) -> ReplayDriver {
        ReplayDriver {
            clock_ms: if target > self.clock_ms {
                target
            } else {
                self.clock_ms
            },
            phase,
            ..self
        }
    }

    /// A round after the tape.
    pub open spec fn flush_step(self, seen: Seen) -> (ReplayDriver, DriveAction) {
        let target = sum_capped(self.clock_ms, self.grace_ms);
        (
            ReplayDriver { before: seen, ..self.advanced(target, DrivePhase::Flushing) },
            DriveAction::Advance(gap(self.clock_ms as int, target as int)),
        )
    }

    /// What comes next, and the state after it.
    pub open spec fn step(self, tape: Seq<TapeRecord>, seen: Seen) -> (ReplayDriver, DriveAction) {
        match self.phase {
            DrivePhase::Pending => if self.at >= tape.len() {
                self.flush_step(seen)
            } else {
                let t = tape[self.at as int].ts_ms;
                let due = sum_capped(self.last_tick, self.tick_ms);
                if due <= t {
                    (
                        ReplayDriver { last_tick: due, ..self.advanced(due, DrivePhase::AtTick) },
                        DriveAction::Advance(gap(self.clock_ms as int, due as int)),
                    )
                } else {
                    (
                        self.advanced(t, DrivePhase::AtRecord),
                        DriveAction::Advance(gap(self.clock_ms as int, t as int)),
                    )
                }
            },
            DrivePhase::AtTick => (
                ReplayDriver { phase: DrivePhase::TickReady, ..self },
                DriveAction::Drain,
            ),
            DrivePhase::TickReady => (
                ReplayDriver { phase: DrivePhase::Ticked, ..self },
                DriveAction::Tick,
            ),
            DrivePhase::Ticked => (
                ReplayDriver { phase: DrivePhase::Pending, ..self },
                DriveAction::Drain,
            ),
            DrivePhase::AtRecord => (
                ReplayDriver { phase: DrivePhase::RecordReady, ..self },
                DriveAction::Drain,
            ),
            DrivePhase::RecordReady => if tape[self.at as int].kind.is_output() {
                (
                    ReplayDriver {
                        phase: DrivePhase::Pending,
                        at: (self.at + 1) as usize,
                        dropped: (self.dropped + 1) as u64,
                        ..self
                    },
                    DriveAction::Skip(self.at),
                )
            } else {
                (
                    ReplayDriver { phase: DrivePhase::Fed, ..self },
                    DriveAction::Feed(self.at),
                )
            },
            DrivePhase::Fed => (
                ReplayDriver { phase: DrivePhase::Pending, at: (self.at + 1) as usize, ..self },
                DriveAction::Drain,
            ),
            DrivePhase::Flushing => (
                ReplayDriver { phase: DrivePhase::Flushed, ..self },
                DriveAction::Drain,
            ),
            DrivePhase::Flushed => {
                let done = ReplayDriver {
                    phase: DrivePhase::Finished,
                    round: (self.round + 1) as u64,
                    ..self
                };
                if seen == self.before || self.round + 1 >= FLUSH_ROUNDS {
                    (done, DriveAction::Done)
                } else {
                    done.flush_step(seen)
                }
            },
            DrivePhase::Finished => (self, DriveAction::Done),
        }
    }

    /// Whether the state belongs to a tape: the records before its place that are outputs are
    /// those dropped, and it is at a record where it says so, with no tick due before that record
    /// and the clock at it or past it.
    pub open spec fn wf(self, tape: Seq<TapeRecord>) -> bool {
        &&& self.tick_ms >= 1
        &&& self.at <= tape.len()
        &&& self.dropped == outputs_before(tape, self.at as int)
        &&& self.phase is Fed ==> !tape[self.at as int].kind.is_output()
        &&& self.round <= FLUSH_ROUNDS
        &&& self.phase is Flushing || self.phase is Flushed ==> self.round < FLUSH_ROUNDS
        &&& self.phase is AtRecord || self.phase is RecordReady || self.phase is Fed ==> {
            &&& self.at < tape.len()
            &&& sum_capped(self.last_tick, self.tick_ms) > tape[self.at as int].ts_ms
            &&& self.clock_ms >= tape[self.at as int].ts_ms
        }
        &&& self.phase is Pending && self.at >= tape.len() ==> self.round == 0
        &&& !(self.phase is Flushing || self.phase is Flushed || self.phase is Finished)
            ==> self.round == 0
    }

    /// A replay of a tape that starts at a time.
    pub fn new(start_ms: i64, config: &ReplayConfig) -> (r: ReplayDriver)
        ensures
            r.last_tick == start_ms && r.clock_ms == start_ms && r.at == 0 && r.phase
                == DrivePhase::Pending && r.round == 0 && r.dropped == 0,
            r.tick_ms == crate::decimal::max_int(config.risk_tick_ms as int, 1),
            r.grace_ms == crate::decimal::max_int(
                sum_capped(
                    if config.placement_ms >= config.cancel_ms {
                        config.placement_ms
                    } else {
                        config.cancel_ms
                    },
                    1,
                ) as int,
                1,
            ),
            forall|tape: Seq<TapeRecord>| #[trigger] r.wf(tape),
    {
        let slowest: i64 = if config.placement_ms >= config.cancel_ms {
            config.placement_ms
        } else {
            config.cancel_ms
        };
        let grace: i64 = capped(slowest, 1);
        ReplayDriver {
            tick_ms: if config.risk_tick_ms >= 1 {
                config.risk_tick_ms
            } else {
                1
            },
            grace_ms: if grace >= 1 {
                grace
            } else {
                1
            },
            last_tick: start_ms,
            clock_ms: start_ms,
            at: 0,
            phase: DrivePhase::Pending,
            round: 0,
            before: Seen::none(),
            dropped: 0,
        }
    }

    /// Lets the clock run to a target.
    fn advance_to(&mut self, target: i64, phase: DrivePhase) -> (r: DriveAction)
        ensures
            *final(self) == old(self).advanced(target, phase),
            r == DriveAction::Advance(gap(old(self).clock_ms as int, target as int)),
    {
        self.phase = phase;
        if target > self.clock_ms {
            let ms: u64 = (target as i128 - self.clock_ms as i128) as u64;
            self.clock_ms = target;
            DriveAction::Advance(ms)
        } else {
            DriveAction::Advance(0)
        }
    }

    /// Starts a round after the tape.
    fn flush(&mut self, seen: Seen) -> (r: DriveAction)
        ensures
            (*final(self), r) == old(self).flush_step(seen),
    {
        let target: i64 = capped(self.clock_ms, self.grace_ms);
        self.before = seen;
        self.advance_to(target, DrivePhase::Flushing)
    }

    /// What comes next.
    pub fn next(&mut self, tape: &Vec<TapeRecord>, seen: Seen) -> (r: DriveAction)
        requires
            old(self).wf(tape@),
        ensures
            (*final(self), r) == old(self).step(tape@, seen),
            final(self).wf(tape@),
    {
        let records: usize = tape.len();
        proof {
            lemma_outputs_before(tape@, self.at as int);
        }
        match self.phase {
            DrivePhase::Pending => {
                if self.at >= records {
                    return self.flush(seen);
                }
                let t: i64 = tape[self.at].ts_ms;
                let due: i64 = capped(self.last_tick, self.tick_ms);
                if due <= t {
                    self.last_tick = due;
                    self.advance_to(due, DrivePhase::AtTick)
                } else {
                    self.advance_to(t, DrivePhase::AtRecord)
                }
            },
            DrivePhase::AtTick => {
                self.phase = DrivePhase::TickReady;
                DriveAction::Drain
            },
            DrivePhase::TickReady => {
                self.phase = DrivePhase::Ticked;
                DriveAction::Tick
            },
            DrivePhase::Ticked => {
                self.phase = DrivePhase::Pending;
                DriveAction::Drain
            },
            DrivePhase::AtRecord => {
                self.phase = DrivePhase::RecordReady;
                DriveAction::Drain
            },
            DrivePhase::RecordReady => {
                let at: usize = self.at;
                if is_replay_input(tape[at].kind) {
                    self.phase = DrivePhase::Fed;
                    DriveAction::Feed(at)
                } else {
                    self.phase = DrivePhase::Pending;
                    self.at = at + 1;
                    self.dropped = self.dropped + 1;
                    DriveAction::Skip(at)
                }
            },
            DrivePhase::Fed => {
                self.phase = DrivePhase::Pending;
                self.at = self.at + 1;
                DriveAction::Drain
            },
            DrivePhase::Flushing => {
                self.phase = DrivePhase::Flushed;
                DriveAction::Drain
            },
            DrivePhase::Flushed => {
                let before = self.before;
                self.round = self.round + 1;
                self.phase = DrivePhase::Finished;
                if seen == before || self.round >= FLUSH_ROUNDS {
                    return DriveAction::Done;
                }
                self.flush(seen)
            },
            DrivePhase::Finished => DriveAction::Done,
        }
    }
}

/// A record is fed only when no tick is due before it and the clock is at it or past it, and
/// only where it is not one that the replay gives out again. It is the next one, and the one
/// after it follows.
pub proof fn law_fed_in_its_place(d: ReplayDriver, tape: Seq<TapeRecord>, seen: Seen, at: usize)
    requires
        d.wf(tape),
        tape.len() <= usize::MAX,
        d.step(tape, seen).1 == DriveAction::Feed(at),
    ensures
        at == d.at && at < tape.len(),
        !tape[at as int].kind.is_output(),
        sum_capped(d.last_tick, d.tick_ms) > tape[at as int].ts_ms,
        d.clock_ms >= tape[at as int].ts_ms,
        d.step(tape, seen).0.step(tape, seen).0.at == at + 1,
{
}

/// A recorded order update, fill, inventory report, settlement or control audit is skipped and
/// counted as dropped; a market event, a model reading and any other record is fed, and nothing is
/// counted.
pub proof fn law_each_kind_is_fed_or_dropped(d: ReplayDriver, tape: Seq<TapeRecord>, seen: Seen)
    requires
        d.wf(tape),
        tape.len() <= usize::MAX,
        d.phase is RecordReady,
    ensures
        match tape[d.at as int].kind {
            RecordKind::OrderUpdate | RecordKind::Fill | RecordKind::Inventory
            | RecordKind::Settlement | RecordKind::ControlAudit => {
                &&& d.step(tape, seen).1 == DriveAction::Skip(d.at)
                &&& d.step(tape, seen).0.dropped == d.dropped + 1
                &&& d.step(tape, seen).0.at == d.at + 1
            },
            RecordKind::Window | RecordKind::Model | RecordKind::Other => {
                &&& d.step(tape, seen).1 == DriveAction::Feed(d.at)
                &&& d.step(tape, seen).0.dropped == d.dropped
            },
        },
{
    lemma_outputs_before(tape, d.at as int);
}

/// At every place of a tape, what was dropped is what the records before that place hold of order
/// updates, fills, inventory reports, settlements and control audits.
pub proof fn law_dropped_are_the_outputs(d: ReplayDriver, tape: Seq<TapeRecord>)
    requires
        d.wf(tape),
    ensures
        d.dropped == tape.subrange(0, d.at as int).filter(
            |r: TapeRecord|
                r.kind == RecordKind::OrderUpdate || r.kind == RecordKind::Fill || r.kind
                    == RecordKind::Inventory || r.kind == RecordKind::Settlement || r.kind
                    == RecordKind::ControlAudit,
        ).len(),
{
    lemma_outputs_are_counted(tape, d.at as int);
}

proof fn lemma_outputs_are_counted(tape: Seq<TapeRecord>, n: int)
    requires
        0 <= n <= tape.len(),
    ensures
        outputs_before(tape, n) == tape.subrange(0, n).filter(
            |r: TapeRecord|
                r.kind == RecordKind::OrderUpdate || r.kind == RecordKind::Fill || r.kind
                    == RecordKind::Inventory || r.kind == RecordKind::Settlement || r.kind
                    == RecordKind::ControlAudit,
        ).len(),
    decreases n,
{
    reveal(Seq::filter);
    if n > 0 {
        lemma_outputs_are_counted(tape, n - 1);
        let part = tape.subrange(0, n);
        assert(part.drop_last() =~= tape.subrange(0, n - 1));
        assert(part.last() == tape[n - 1]);
    }
}

/// Before each record come the ticks that are due by then, one every tick interval, each at its own
/// time: a tick is let through only where the clock stands at one that is due no later than the
/// record, and the last tick moves on by one interval.
pub proof fn law_ticks_keep_their_cadence(d: ReplayDriver, tape: Seq<TapeRecord>, seen: Seen)
    requires
        d.wf(tape),
        d.phase is Pending,
        d.at < tape.len(),
        d.last_tick + d.tick_ms <= i64::MAX,
        i64::MIN <= d.last_tick + d.tick_ms,
    ensures
        ({
            let (next, action) = d.step(tape, seen);
            let due = d.last_tick + d.tick_ms;
            let at = tape[d.at as int].ts_ms;
            let target = if due <= at {
                due
            } else {
                at as int
            };
            &&& next.phase == (if due <= at {
                DrivePhase::AtTick
            } else {
                DrivePhase::AtRecord
            })
            &&& next.last_tick == (if due <= at {
                due
            } else {
                d.last_tick as int
            })
            &&& next.clock_ms == (if target > d.clock_ms {
                target
            } else {
                d.clock_ms as int
            })
            &&& next.at == d.at
            &&& next.dropped == d.dropped
            &&& action is Advance
        }),
{
}

/// A replay takes its records one after the other: no step goes back or leaves one out, and it is
/// over only after the last.
pub proof fn law_no_record_is_left_out(d: ReplayDriver, tape: Seq<TapeRecord>, seen: Seen)
    requires
        d.wf(tape),
        tape.len() <= usize::MAX,
        d.phase is Flushing || d.phase is Flushed || d.phase is Finished ==> d.at == tape.len(),
    ensures
        ({
            let (next, action) = d.step(tape, seen);
            &&& next.at == d.at || next.at == d.at + 1 && (action == DriveAction::Skip(d.at)
                || d.phase is Fed)
            &&& action is Done || next.phase is Flushing || next.phase is Flushed
                || next.phase is Finished ==> next.at == tape.len()
        }),
{
}

/// The venue is drained before and after every tick and every record that is fed, and before a
/// record that is skipped.
pub proof fn law_drained_around_each_input(d: ReplayDriver, tape: Seq<TapeRecord>, seen: Seen)
    requires
        d.wf(tape),
    ensures
        d.phase is AtTick || d.phase is Ticked || d.phase is AtRecord || d.phase is Fed
            || d.phase is Flushing <==> d.step(tape, seen).1 is Drain,
        d.step(tape, seen).1 is Tick <==> d.phase is TickReady,
        d.phase is AtTick ==> d.step(tape, seen).0.phase is TickReady,
        d.step(tape, seen).1 is Tick ==> d.step(tape, seen).0.phase is Ticked,
        d.step(tape, seen).1 is Feed ==> d.step(tape, seen).0.phase is Fed,
        d.phase is AtRecord ==> d.step(tape, seen).0.phase is RecordReady,
{
}

/// A replay ends after its tape and there only: after a round in which nothing new was seen, or
/// after the eighth.
pub proof fn law_ends_when_nothing_comes(d: ReplayDriver, tape: Seq<TapeRecord>, seen: Seen)
    requires
        d.wf(tape),
        d.phase is Flushed,
    ensures
        d.step(tape, seen).1 is Done <==> seen == d.before || d.round == 7,
        !(d.step(tape, seen).1 is Done) ==> d.step(tape, seen).0.round == d.round + 1 && d.step(
            tape,
            seen,
        ).0.before == seen,
{
}

/// The clock never runs back, whatever has been seen.
pub proof fn law_clock_never_runs_back(d: ReplayDriver, tape: Seq<TapeRecord>, seen: Seen)
    requires
        d.wf(tape),
    ensures
        d.step(tape, seen).0.clock_ms >= d.clock_ms,
        d.step(tape, seen).1 matches DriveAction::Advance(ms) ==> d.step(tape, seen).0.clock_ms
            == d.clock_ms + ms,
{
}

/// A replay goes by the tape and by what has been seen, and before its end by the tape alone.
pub proof fn law_same_tape_same_course(d: ReplayDriver, tape: Seq<TapeRecord>, a: Seen, b: Seen)
    requires
        d.wf(tape),
        d.at < tape.len(),
        !(d.phase is Flushed),
    ensures
        d.step(tape, a) == d.step(tape, b),
{
}

/// What an action of a replay brought back from the venue and the engine: the counts so far, and the
/// events for the analytics.
pub struct Answer {
    /// What has been seen after the action.
    pub seen: Seen,
    /// What the analytics take in on it.
    pub events: Seq<EventView>,
}

/// What has been seen after some answers.
pub open spec fn seen_after(answers: Seq<Answer>) -> Seen {
    if answers.len() == 0 {
        Seen { fills: 0, order_updates: 0, windows_settled: 0 }
    } else {
        answers.last().seen
    }
}

/// Where a replay stands when its actions so far were answered.
pub open spec fn driver_after(
    start: ReplayDriver,
    tape: Seq<TapeRecord>,
    answers: Seq<Answer>,
) -> ReplayDriver
    decreases answers.len(),
{
    if answers.len() == 0 {
        start
    } else {
        let rest = answers.drop_last();
        driver_after(start, tape, rest).step(tape, seen_after(rest)).0
    }
}

/// What a replay does next when its actions so far were answered.
pub open spec fn action_after(
    start: ReplayDriver,
    tape: Seq<TapeRecord>,
    answers: Seq<Answer>,
) -> DriveAction {
    driver_after(start, tape, answers).step(tape, seen_after(answers)).1
}

/// Whether a replay is whole: it is over after these answers and was not before.
pub open spec fn is_whole(
    start: ReplayDriver,
    tape: Seq<TapeRecord>,
    answers: Seq<Answer>,
) -> bool {
    forall|n: int|
        0 <= n <= answers.len() ==> (action_after(start, tape, #[trigger] answers.subrange(0, n))
            == DriveAction::Done <==> n == answers.len())
}

/// Whether two replays are run against venues of one kind: as long as all was answered alike so far,
/// the next action, which is then the same, is answered alike too.
pub open spec fn answered_alike(a: Seq<Answer>, b: Seq<Answer>) -> bool {
    forall|n: int|
        0 <= n < a.len() && n < b.len() && #[trigger] a.subrange(0, n) == b.subrange(0, n) ==> a[n]
            == b[n]
}

/// The events that the analytics took in.
pub open spec fn events_in(answers: Seq<Answer>) -> Seq<EventView>
    decreases answers.len(),
{
    if answers.len() == 0 {
        Seq::empty()
    } else {
        events_in(answers.drop_last()) + answers.last().events
    }
}

/// Whether an output is that of a replay that was so answered: the comparison of the analytics that
/// took its events in, and the summary at its end.
pub open spec fn is_output(
    start: ReplayDriver,
    tape: Seq<TapeRecord>,
    answers: Seq<Answer>,
    config: ReplayConfig,
    first: ReplaySummary,
    keys: Seq<(Series, i64)>,
    output: ReplayOutput,
) -> bool {
    let state = folded(AnalyticsView::fresh(config.mode, config.analytics), events_in(answers));
    &&& is_comparison(
        state,
        config.comparison_window,
        DayKey::of_ts(first.last_event_ms as int),
        keys,
        output.comparison,
    )
    &&& output.summary == first.finished_spec(
        driver_after(start, tape, answers).dropped,
        seen_after(answers),
        output.comparison.rows@,
    )
}

/// The output of a replay that is over: the comparison of its analytics over the days that are asked
/// for, up to that of the last record, and the summary at its end. `None` where a figure of either is
/// beyond the largest decimal. `keys` holds the order key of each series' net PnL.
pub fn replay_output(
    driver: &ReplayDriver,
    seen: Seen,
    analytics: &Analytics,
    config: &ReplayConfig,
    first: &ReplaySummary,
    keys: &Table<Series, i64>,
) -> (r: Option<ReplayOutput>)
    requires
        analytics.wf(),
        keys.wf(),
        config.comparison_window matches ComparisonWindow::LastDays(n) ==> DayKey::of_ts(
            first.last_event_ms as int,
        ).days() - n >= i64::MIN,
    ensures
        r matches Some(output) ==> {
            &&& is_comparison(
                analytics@,
                config.comparison_window,
                DayKey::of_ts(first.last_event_ms as int),
                keys@,
                output.comparison,
            )
            &&& has_money(output.comparison.rows@, by_net_pnl())
            &&& output.summary == first.finished_spec(
                driver.dropped,
                seen,
                output.comparison.rows@,
            )
        },
        r is None ==> !has_rows(
            analytics@,
            config.comparison_window,
            DayKey::of_ts(first.last_event_ms as int),
        ) || exists|c: SeriesComparison| #[trigger]
            is_comparison(
                analytics@,
                config.comparison_window,
                DayKey::of_ts(first.last_event_ms as int),
                keys@,
                c,
            ) && !has_money(c.rows@, by_net_pnl()),
{
    let today = DayKey::from_ts(first.last_event_ms);
    let comparison = match analytics.checked_comparison_over(
        config.comparison_window,
        today,
        keys,
    ) {
        Some(c) => c,
        None => return None,
    };
    match first.checked_finished(driver.dropped, seen, &comparison.rows) {
        Some(summary) => Some(ReplayOutput { comparison, summary }),
        None => {
            assert(is_comparison(
                analytics@,
                config.comparison_window,
                today,
                keys@,
                comparison,
            ));
            None
        },
    }
}

/// Rows that hold the same add up to the same.
proof fn lemma_same_money(a: Seq<SeriesComparisonRow>, b: Seq<SeriesComparisonRow>)
    requires
        same_rows(a, b),
    ensures
        money(a, by_net_pnl()) == money(b, by_net_pnl()),
    decreases a.len(),
{
    if a.len() > 0 {
        assert(same_row(a[a.len() - 1], b[a.len() - 1]));
        assert forall|i: int| 0 <= i < a.len() - 1 implies same_row(
            #[trigger] a.drop_last()[i],
            b.drop_last()[i],
        ) by {
            assert(same_row(a[i], b[i]));
        }
        lemma_same_money(a.drop_last(), b.drop_last());
    }
}

/// Two replays of one tape from one start, answered alike, are answered the same all along.
proof fn lemma_same_answers(a: Seq<Answer>, b: Seq<Answer>, n: int)
    requires
        answered_alike(a, b),
        0 <= n <= a.len(),
        n <= b.len(),
    ensures
        a.subrange(0, n) == b.subrange(0, n),
    decreases n,
{
    if n > 0 {
        lemma_same_answers(a, b, n - 1);
        assert(a[n - 1] == b[n - 1]);
        assert forall|i: int| 0 <= i < n implies a[i] == b[i] by {
            if i < n - 1 {
                assert(a.subrange(0, n - 1)[i] == b.subrange(0, n - 1)[i]);
            }
        }
    }
    assert(a.subrange(0, n) =~= b.subrange(0, n));
}

/// Two whole replays of one tape and configuration against venues of one kind give the same: the same
/// actions in the same order, answered the same, and outputs that hold the same.
pub proof fn law_two_replays_are_alike(
    start: ReplayDriver,
    tape: Seq<TapeRecord>,
    config: ReplayConfig,
    first: ReplaySummary,
    keys: Seq<(Series, i64)>,
    a: Seq<Answer>,
    b: Seq<Answer>,
    of_a: ReplayOutput,
    of_b: ReplayOutput,
)
    requires
        is_whole(start, tape, a),
        is_whole(start, tape, b),
        answered_alike(a, b),
        folded(AnalyticsView::fresh(config.mode, config.analytics), events_in(a)).rollups.len()
            <= usize::MAX,
        is_output(start, tape, a, config, first, keys, of_a),
        is_output(start, tape, b, config, first, keys, of_b),
    ensures
        a == b,
        forall|n: int|
            0 <= n <= a.len() ==> action_after(start, tape, #[trigger] a.subrange(0, n))
                == action_after(start, tape, b.subrange(0, n)),
        of_a.summary == of_b.summary,
        of_a.comparison.window == of_b.comparison.window && of_a.comparison.day
            == of_b.comparison.day && of_a.comparison.default_sort == of_b.comparison.default_sort,
        same_rows(of_a.comparison.rows@, of_b.comparison.rows@),
{
    let n = if a.len() <= b.len() {
        a.len() as int
    } else {
        b.len() as int
    };
    lemma_same_answers(a, b, n);
    assert(action_after(start, tape, a.subrange(0, n)) == action_after(
        start,
        tape,
        b.subrange(0, n),
    ));
    assert(a.len() == b.len());
    assert(a.subrange(0, n) =~= a);
    assert(b.subrange(0, n) =~= b);
    law_one_comparison(
        folded(AnalyticsView::fresh(config.mode, config.analytics), events_in(a)),
        config.comparison_window,
        DayKey::of_ts(first.last_event_ms as int),
        keys,
        of_a.comparison,
        of_b.comparison,
    );
    lemma_same_money(of_a.comparison.rows@, of_b.comparison.rows@);
}

/// An amount of the rows, added up in order.
pub open spec fn money(
    rows: Seq<SeriesComparisonRow>,
    what: spec_fn(SeriesComparisonRow) -> Amount,
) -> Amount
    decreases rows.len(),
{
    if rows.len() == 0 {
        Amount::zero_spec()
    } else {
        Amount::sum_of(money(rows.drop_last(), what), what(rows.last()))
    }
}

/// Whether an amount of the rows adds up within the decimal type, row by row.
pub open spec fn has_money(
    rows: Seq<SeriesComparisonRow>,
    what: spec_fn(SeriesComparisonRow) -> Amount,
) -> bool
    decreases rows.len(),
{
    rows.len() > 0 ==> has_money(rows.drop_last(), what) && Amount::has_sum(
        money(rows.drop_last(), what),
        what(rows.last()),
    )
}

/// Rows that add up do so as far as any of them.
proof fn lemma_money_of_first(
    rows: Seq<SeriesComparisonRow>,
    what: spec_fn(SeriesComparisonRow) -> Amount,
    n: int,
)
    requires
        0 <= n <= rows.len(),
    ensures
        has_money(rows, what) ==> has_money(rows.subrange(0, n), what),
    decreases rows.len(),
{
    if n == rows.len() {
        assert(rows.subrange(0, n) =~= rows);
    } else {
        lemma_money_of_first(rows.drop_last(), what, n);
        assert(rows.drop_last().subrange(0, n) =~= rows.subrange(0, n));
    }
}

/// A count of the rows, added up in order, staying at a largest value.
pub open spec fn counted(
    rows: Seq<SeriesComparisonRow>,
    what: spec_fn(SeriesComparisonRow) -> int,
    top: int,
) -> int
    decreases rows.len(),
{
    if rows.len() == 0 {
        0
    } else {
        crate::decimal::min_int(counted(rows.drop_last(), what, top) + what(rows.last()), top)
    }
}

/// Net PnL.
pub open spec fn by_net_pnl() -> spec_fn(SeriesComparisonRow) -> Amount {
    |r: SeriesComparisonRow| r.net_pnl
}

/// Locked-pair PnL.
pub open spec fn by_locked_pair_pnl() -> spec_fn(SeriesComparisonRow) -> Amount {
    |r: SeriesComparisonRow| r.locked_pair_pnl
}

/// Inventory PnL.
pub open spec fn by_inventory_pnl() -> spec_fn(SeriesComparisonRow) -> Amount {
    |r: SeriesComparisonRow| r.inventory_pnl
}

/// Fees paid.
pub open spec fn by_fees_paid() -> spec_fn(SeriesComparisonRow) -> Amount {
    |r: SeriesComparisonRow| r.fees_paid
}

/// Rebates.
pub open spec fn by_rebates_earned() -> spec_fn(SeriesComparisonRow) -> Amount {
    |r: SeriesComparisonRow| r.rebates_earned
}

/// Taker notional.
pub open spec fn by_taker_notional() -> spec_fn(SeriesComparisonRow) -> Amount {
    |r: SeriesComparisonRow| r.taker_notional
}

/// Windows traded.
pub open spec fn by_windows_traded() -> spec_fn(SeriesComparisonRow) -> int {
    |r: SeriesComparisonRow| r.windows_traded as int
}

/// Maker fills.
pub open spec fn by_maker_fills() -> spec_fn(SeriesComparisonRow) -> int {
    |r: SeriesComparisonRow| r.maker_fills as int
}

/// Taker fills.
pub open spec fn by_taker_fills() -> spec_fn(SeriesComparisonRow) -> int {
    |r: SeriesComparisonRow| r.taker_fills as int
}

/// Markouts counted.
pub open spec fn by_markouts() -> spec_fn(SeriesComparisonRow) -> int {
    |r: SeriesComparisonRow| r.markout_5s_n as int
}

/// Whether every amount of the rows adds up within the decimal type.
pub open spec fn has_sums(rows: Seq<SeriesComparisonRow>) -> bool {
    &&& has_money(rows, by_net_pnl())
    &&& has_money(rows, by_locked_pair_pnl())
    &&& has_money(rows, by_inventory_pnl())
    &&& has_money(rows, by_fees_paid())
    &&& has_money(rows, by_rebates_earned())
    &&& has_money(rows, by_taker_notional())
}

/// Whether the rows have an aggregate: every amount of theirs adds up within the decimal type, and
/// so do the figures per window and the share of a budget.
pub open spec fn has_aggregate(rows: Seq<SeriesComparisonRow>, taker_budget: Amount) -> bool {
    let windows = counted(rows, by_windows_traded(), u32::MAX as int) as u32;
    let notional = money(rows, by_taker_notional());
    &&& has_sums(rows)
    &&& has_per_window(money(rows, by_net_pnl()), windows)
    &&& taker_budget.value() > 0 && windows > 0 ==> has_per_window(notional, windows)
        && budget_share(notional, windows, taker_budget) is Some
}

/// One more row, and what it is.
proof fn lemma_prefix(rows: Seq<SeriesComparisonRow>, i: int)
    requires
        0 <= i < rows.len(),
    ensures
        rows.subrange(0, i + 1).drop_last() =~= rows.subrange(0, i),
        rows.subrange(0, i + 1).last() == rows[i],
{
}

/// The values to sweep over; an empty list stands for the base value.
#[derive(Clone, Debug)]
pub struct SweepGrid {
    /// Values of the least edge.
    pub min_edge: Vec<Amount>,
    /// Values of the skew strength, as order keys.
    pub gamma: Vec<i64>,
    /// Values of the cancel threshold, as order keys.
    pub cancel_theta: Vec<i64>,
    /// Values of the taker's buffer.
    pub taker_buffer: Vec<Amount>,
}

/// A point of a sweep.
#[derive(Clone, Copy, PartialEq, Eq, Structural, Debug)]
pub struct SweepPoint {
    /// The least edge.
    pub min_edge: Amount,
    /// The skew strength, as an order key.
    pub gamma: i64,
    /// The cancel threshold, as an order key.
    pub cancel_theta: i64,
    /// The taker's buffer.
    pub taker_buffer: Amount,
}

/// The values of one dimension.
pub open spec fn or_base_spec<T>(values: Seq<T>, base: T) -> Seq<T> {
    if values.len() == 0 {
        seq![base]
    } else {
        values
    }
}

/// The values of one dimension: a list, or the base value where it is empty.
pub fn or_base<T: Copy>(values: &Vec<T>, base: T) -> (r: Vec<T>)
    ensures
        r@ == or_base_spec(values@, base),
{
    let mut out: Vec<T> = Vec::new();
    if values.len() == 0 {
        out.push(base);
        assert(out@ =~= seq![base]);
        return out;
    }
    let mut i: usize = 0;
    while i < values.len()
        invariant
            i <= values@.len(),
            out@ == values@.subrange(0, i as int),
        decreases values.len() - i,
    {
        out.push(values[i]);
        i = i + 1;
        assert(out@ =~= values@.subrange(0, i as int));
    }
    assert(out@ =~= values@);
    out
}

/// The points over all values of the taker's buffer.
pub open spec fn points_of_theta(
    min_edge: Amount,
    gamma: i64,
    cancel_theta: i64,
    buffers: Seq<Amount>,
) -> Seq<SweepPoint> {
    buffers.map_values(
        |taker_buffer: Amount| SweepPoint { min_edge, gamma, cancel_theta, taker_buffer },
    )
}

/// The points over all thresholds and buffers.
pub open spec fn points_of_gamma(
    min_edge: Amount,
    gamma: i64,
    cancels: Seq<i64>,
    buffers: Seq<Amount>,
) -> Seq<SweepPoint>
    decreases cancels.len(),
{
    if cancels.len() == 0 {
        Seq::empty()
    } else {
        points_of_gamma(min_edge, gamma, cancels.drop_last(), buffers) + points_of_theta(
            min_edge,
            gamma,
            cancels.last(),
            buffers,
        )
    }
}

/// The points over all skews, thresholds and buffers.
pub open spec fn points_of_edge(
    min_edge: Amount,
    gammas: Seq<i64>,
    cancels: Seq<i64>,
    buffers: Seq<Amount>,
) -> Seq<SweepPoint>
    decreases gammas.len(),
{
    if gammas.len() == 0 {
        Seq::empty()
    } else {
        points_of_edge(min_edge, gammas.drop_last(), cancels, buffers) + points_of_gamma(
            min_edge,
            gammas.last(),
            cancels,
            buffers,
        )
    }
}

/// Every point of a grid: the last dimension runs fastest.
pub open spec fn points_of(
    edges: Seq<Amount>,
    gammas: Seq<i64>,
    cancels: Seq<i64>,
    buffers: Seq<Amount>,
) -> Seq<SweepPoint>
    decreases edges.len(),
{
    if edges.len() == 0 {
        Seq::empty()
    } else {
        points_of(edges.drop_last(), gammas, cancels, buffers) + points_of_edge(
            edges.last(),
            gammas,
            cancels,
            buffers,
        )
    }
}

/// A grid has as many points as the product of its dimensions.
pub proof fn law_grid_size(
    edges: Seq<Amount>,
    gammas: Seq<i64>,
    cancels: Seq<i64>,
    buffers: Seq<Amount>,
)
    ensures
        points_of(edges, gammas, cancels, buffers).len() == edges.len() * (gammas.len() * (
        cancels.len() * buffers.len())),
    decreases edges.len(),
{
    let inner = gammas.len() * (cancels.len() * buffers.len());
    if edges.len() > 0 {
        law_grid_size(edges.drop_last(), gammas, cancels, buffers);
        lemma_edge_size(edges.last(), gammas, cancels, buffers);
        let n = edges.len();
        assert((n - 1) * inner + inner == n * inner) by (nonlinear_arith);
    } else {
        assert(0 * inner == 0);
    }
}

proof fn lemma_edge_size(
    min_edge: Amount,
    gammas: Seq<i64>,
    cancels: Seq<i64>,
    buffers: Seq<Amount>,
)
    ensures
        points_of_edge(min_edge, gammas, cancels, buffers).len() == gammas.len() * (cancels.len()
            * buffers.len()),
    decreases gammas.len(),
{
    let inner = cancels.len() * buffers.len();
    if gammas.len() > 0 {
        lemma_edge_size(min_edge, gammas.drop_last(), cancels, buffers);
        lemma_gamma_size(min_edge, gammas.last(), cancels, buffers);
        let n = gammas.len();
        assert((n - 1) * inner + inner == n * inner) by (nonlinear_arith);
    } else {
        assert(0 * inner == 0);
    }
}

proof fn lemma_gamma_size(min_edge: Amount, gamma: i64, cancels: Seq<i64>, buffers: Seq<Amount>)
    ensures
        points_of_gamma(min_edge, gamma, cancels, buffers).len() == cancels.len() * buffers.len(),
    decreases cancels.len(),
{
    let inner = buffers.len();
    if cancels.len() > 0 {
        lemma_gamma_size(min_edge, gamma, cancels.drop_last(), buffers);
        let n = cancels.len();
        assert((n - 1) * inner + inner == n * inner) by (nonlinear_arith);
    } else {
        assert(0 * inner == 0);
    }
}

proof fn lemma_point_of_gamma(
    min_edge: Amount,
    gamma: i64,
    cancels: Seq<i64>,
    buffers: Seq<Amount>,
    c: int,
    b: int,
)
    requires
        0 <= c < cancels.len(),
        0 <= b < buffers.len(),
    ensures
        0 <= c * buffers.len() + b < cancels.len() * buffers.len(),
        points_of_gamma(min_edge, gamma, cancels, buffers)[c * buffers.len() + b] == (SweepPoint {
            min_edge,
            gamma,
            cancel_theta: cancels[c],
            taker_buffer: buffers[b],
        }),
    decreases cancels.len(),
{
    let rest = cancels.drop_last();
    let n = buffers.len() as int;
    let last = cancels.len() - 1;
    lemma_gamma_size(min_edge, gamma, rest, buffers);
    lemma_gamma_size(min_edge, gamma, cancels, buffers);
    assert(0 <= c * n + b < (last + 1) * n) by (nonlinear_arith)
        requires
            0 <= c <= last,
            0 <= b < n,
    ;
    if c < last {
        lemma_point_of_gamma(min_edge, gamma, rest, buffers, c, b);
    }
}

proof fn lemma_point_of_edge(
    min_edge: Amount,
    gammas: Seq<i64>,
    cancels: Seq<i64>,
    buffers: Seq<Amount>,
    g: int,
    k: int,
)
    requires
        0 <= g < gammas.len(),
        0 <= k < cancels.len() * buffers.len(),
    ensures
        0 <= g * (cancels.len() * buffers.len()) + k < gammas.len() * (cancels.len()
            * buffers.len()),
        points_of_edge(min_edge, gammas, cancels, buffers)[g * (cancels.len() * buffers.len()) + k]
            == points_of_gamma(min_edge, gammas[g], cancels, buffers)[k],
    decreases gammas.len(),
{
    let rest = gammas.drop_last();
    let n = (cancels.len() * buffers.len()) as int;
    let last = gammas.len() - 1;
    lemma_edge_size(min_edge, rest, cancels, buffers);
    lemma_edge_size(min_edge, gammas, cancels, buffers);
    lemma_gamma_size(min_edge, gammas.last(), cancels, buffers);
    assert(0 <= g * n + k < (last + 1) * n) by (nonlinear_arith)
        requires
            0 <= g <= last,
            0 <= k < n,
    ;
    if g < last {
        lemma_point_of_edge(min_edge, rest, cancels, buffers, g, k);
    }
}

proof fn lemma_point_of_grid(
    edges: Seq<Amount>,
    gammas: Seq<i64>,
    cancels: Seq<i64>,
    buffers: Seq<Amount>,
    e: int,
    k: int,
)
    requires
        0 <= e < edges.len(),
        0 <= k < gammas.len() * (cancels.len() * buffers.len()),
    ensures
        points_of(edges, gammas, cancels, buffers)[e * (gammas.len() * (cancels.len()
            * buffers.len())) + k] == points_of_edge(edges[e], gammas, cancels, buffers)[k],
    decreases edges.len(),
{
    let rest = edges.drop_last();
    let n = (gammas.len() * (cancels.len() * buffers.len())) as int;
    let last = edges.len() - 1;
    law_grid_size(rest, gammas, cancels, buffers);
    law_grid_size(edges, gammas, cancels, buffers);
    lemma_edge_size(edges.last(), gammas, cancels, buffers);
    assert(0 <= e * n + k < (last + 1) * n) by (nonlinear_arith)
        requires
            0 <= e <= last,
            0 <= k < n,
    ;
    if e < last {
        assert(e * n + k < last * n) by (nonlinear_arith)
            requires
                e < last,
                0 <= k < n,
        ;
        lemma_point_of_grid(rest, gammas, cancels, buffers, e, k);
    }
}

/// A grid holds every combination of its values, each in one place: the taker's buffer runs fastest,
/// then the cancel threshold, then the skew, and the least edge slowest. A dimension without values
/// stays at the base's value, the cancel threshold at that of repricing.
pub proof fn law_every_combination_has_its_place(
    grid: SweepGrid,
    base: ReplayConfig,
    e: int,
    g: int,
    c: int,
    b: int,
)
    requires
        0 <= e < grid.min_edge@.len() || e == 0 && grid.min_edge@.len() == 0,
        0 <= g < grid.gamma@.len() || g == 0 && grid.gamma@.len() == 0,
        0 <= c < grid.cancel_theta@.len() || c == 0 && grid.cancel_theta@.len() == 0,
        0 <= b < grid.taker_buffer@.len() || b == 0 && grid.taker_buffer@.len() == 0,
    ensures
        ({
            let gammas = crate::decimal::max_int(grid.gamma@.len() as int, 1);
            let cancels = crate::decimal::max_int(grid.cancel_theta@.len() as int, 1);
            let buffers = crate::decimal::max_int(grid.taker_buffer@.len() as int, 1);
            let at = e * (gammas * (cancels * buffers)) + (g * (cancels * buffers) + (c * buffers
                + b));
            grid.points_spec(base)[at] == SweepPoint {
                min_edge: if grid.min_edge@.len() == 0 {
                    base.min_edge
                } else {
                    grid.min_edge@[e]
                },
                gamma: if grid.gamma@.len() == 0 {
                    base.gamma
                } else {
                    grid.gamma@[g]
                },
                cancel_theta: if grid.cancel_theta@.len() == 0 {
                    base.reprice_theta
                } else {
                    grid.cancel_theta@[c]
                },
                taker_buffer: if grid.taker_buffer@.len() == 0 {
                    base.momentum_buffer
                } else {
                    grid.taker_buffer@[b]
                },
            }
        }),
{
    let edges = or_base_spec(grid.min_edge@, base.min_edge);
    let gammas = or_base_spec(grid.gamma@, base.gamma);
    let cancels = or_base_spec(grid.cancel_theta@, base.reprice_theta);
    let buffers = or_base_spec(grid.taker_buffer@, base.momentum_buffer);
    lemma_point_of_gamma(edges[e], gammas[g], cancels, buffers, c, b);
    lemma_point_of_edge(edges[e], gammas, cancels, buffers, g, c * buffers.len() + b);
    lemma_point_of_grid(
        edges,
        gammas,
        cancels,
        buffers,
        e,
        g * (cancels.len() * buffers.len()) + (c * buffers.len() + b),
    );
}

impl SweepGrid {
    /// Every point of the grid over a base.
    pub open spec fn points_spec(self, base: ReplayConfig) -> Seq<SweepPoint> {
        points_of(
            or_base_spec(self.min_edge@, base.min_edge),
            or_base_spec(self.gamma@, base.gamma),
            or_base_spec(self.cancel_theta@, base.reprice_theta),
            or_base_spec(self.taker_buffer@, base.momentum_buffer),
        )
    }

    /// Every point of the grid over a base, the last dimension running fastest.
    pub fn points(&self, base: &ReplayConfig) -> (r: Vec<SweepPoint>)
        ensures
            r@ == self.points_spec(*base),
    {
        let edges = or_base(&self.min_edge, base.min_edge);
        let gammas = or_base(&self.gamma, base.gamma);
        let cancels = or_base(&self.cancel_theta, base.reprice_theta);
        let buffers = or_base(&self.taker_buffer, base.momentum_buffer);
        let mut out: Vec<SweepPoint> = Vec::new();
        let mut i: usize = 0;
        assert(edges@.subrange(0, 0) =~= Seq::empty());
        while i < edges.len()
            invariant
                i <= edges@.len(),
                out@ == points_of(edges@.subrange(0, i as int), gammas@, cancels@, buffers@),
            decreases edges.len() - i,
        {
            proof {
                let part = edges@.subrange(0, i + 1);
                assert(part.drop_last() =~= edges@.subrange(0, i as int));
                assert(part.last() == edges@[i as int]);
            }
            push_edge(&mut out, edges[i], &gammas, &cancels, &buffers);
            i = i + 1;
        }
        assert(edges@.subrange(0, i as int) =~= edges@);
        out
    }
}

fn push_edge(
    out: &mut Vec<SweepPoint>,
    min_edge: Amount,
    gammas: &Vec<i64>,
    cancels: &Vec<i64>,
    buffers: &Vec<Amount>,
)
    ensures
        final(out)@ == old(out)@ + points_of_edge(min_edge, gammas@, cancels@, buffers@),
{
    let ghost before = out@;
    let mut i: usize = 0;
    assert(gammas@.subrange(0, 0) =~= Seq::empty());
    assert(out@ =~= before + points_of_edge(min_edge, gammas@.subrange(0, 0), cancels@, buffers@));
    while i < gammas.len()
        invariant
            i <= gammas@.len(),
            out@ == before + points_of_edge(
                min_edge,
                gammas@.subrange(0, i as int),
                cancels@,
                buffers@,
            ),
        decreases gammas.len() - i,
    {
        let ghost seen = out@;
        proof {
            let part = gammas@.subrange(0, i + 1);
            assert(part.drop_last() =~= gammas@.subrange(0, i as int));
            assert(part.last() == gammas@[i as int]);
        }
        push_gamma(out, min_edge, gammas[i], cancels, buffers);
        i = i + 1;
        assert(out@ =~= before + points_of_edge(
            min_edge,
            gammas@.subrange(0, i as int),
            cancels@,
            buffers@,
        ));
    }
    assert(gammas@.subrange(0, i as int) =~= gammas@);
}

fn push_gamma(
    out: &mut Vec<SweepPoint>,
    min_edge: Amount,
    gamma: i64,
    cancels: &Vec<i64>,
    buffers: &Vec<Amount>,
)
    ensures
        final(out)@ == old(out)@ + points_of_gamma(min_edge, gamma, cancels@, buffers@),
{
    let ghost before = out@;
    let mut i: usize = 0;
    assert(cancels@.subrange(0, 0) =~= Seq::empty());
    assert(out@ =~= before + points_of_gamma(min_edge, gamma, cancels@.subrange(0, 0), buffers@));
    while i < cancels.len()
        invariant
            i <= cancels@.len(),
            out@ == before + points_of_gamma(
                min_edge,
                gamma,
                cancels@.subrange(0, i as int),
                buffers@,
            ),
        decreases cancels.len() - i,
    {
        let cancel_theta: i64 = cancels[i];
        let ghost seen = out@;
        proof {
            let part = cancels@.subrange(0, i + 1);
            assert(part.drop_last() =~= cancels@.subrange(0, i as int));
            assert(part.last() == cancel_theta);
        }
        let mut j: usize = 0;
        while j < buffers.len()
            invariant
                j <= buffers@.len(),
                out@ == seen + points_of_theta(
                    min_edge,
                    gamma,
                    cancel_theta,
                    buffers@.subrange(0, j as int),
                ),
            decreases buffers.len() - j,
        {
            let taker_buffer = buffers[j];
            out.push(SweepPoint { min_edge, gamma, cancel_theta, taker_buffer });
            j = j + 1;
            assert(out@ =~= seen + points_of_theta(
                min_edge,
                gamma,
                cancel_theta,
                buffers@.subrange(0, j as int),
            ));
        }
        assert(buffers@.subrange(0, j as int) =~= buffers@);
        i = i + 1;
        assert(out@ =~= before + points_of_gamma(
            min_edge,
            gamma,
            cancels@.subrange(0, i as int),
            buffers@,
        ));
    }
    assert(cancels@.subrange(0, i as int) =~= cancels@);
}

impl SweepPoint {
    /// The base with the point's values. `scaled` is the market's cancel threshold scaled with
    /// the point's; the threshold never drops below that of repricing.
    pub fn applied(&self, base: &ReplayConfig, scaled: i64) -> (r: ReplayConfig)
        ensures
            r == (ReplayConfig {
                min_edge: self.min_edge,
                gamma: self.gamma,
                reprice_theta: self.cancel_theta,
                cancel_market_theta: crate::decimal::max_int(
                    scaled as int,
                    self.cancel_theta as int,
                ) as i64,
                momentum_buffer: self.taker_buffer,
                ..*base
            }),
            r.cancel_market_theta >= r.reprice_theta,
    {
        ReplayConfig {
            min_edge: self.min_edge,
            gamma: self.gamma,
            reprice_theta: self.cancel_theta,
            cancel_market_theta: if scaled >= self.cancel_theta {
                scaled
            } else {
                self.cancel_theta
            },
            momentum_buffer: self.taker_buffer,
            ..*base
        }
    }
}

/// How many workers a sweep has on a machine: two fewer than it can run at once, at least one.
pub fn worker_count(parallelism: usize) -> (r: usize)
    ensures
        r == crate::decimal::max_int(parallelism - 2, 1),
{
    if parallelism > 3 {
        parallelism - 2
    } else {
        1
    }
}

/// The points of a worker: every so-manyth from its own number on.
pub fn worker_points(points: usize, workers: usize, worker: usize) -> (r: Vec<usize>)
    requires
        worker < workers,
        points + workers <= usize::MAX,
    ensures
        forall|i: int|
            0 <= i < r@.len() ==> #[trigger] r@[i] == worker + i * workers && r@[i] < points,
        worker + r@.len() * workers >= points,
{
    let mut out: Vec<usize> = Vec::new();
    let mut at: usize = worker;
    assert(0 * workers == 0);
    while at < points
        invariant
            worker < workers,
            points + workers <= usize::MAX,
            at == worker + out@.len() * workers,
            forall|i: int|
                0 <= i < out@.len() ==> #[trigger] out@[i] == worker + i * workers && out@[i]
                    < points,
        decreases points + workers - at,
    {
        let ghost n = out@.len() as int;
        assert((n + 1) * workers == n * workers + workers) by (nonlinear_arith);
        out.push(at);
        at = at + workers;
    }
    out
}

/// Every point is some worker's: its place among the workers' points is fixed by its number.
pub proof fn law_every_point_has_one_worker(point: int, workers: int)
    requires
        point >= 0,
        workers > 0,
    ensures
        0 <= point % workers < workers,
        point == point % workers + (point / workers) * workers,
        forall|worker: int, i: int|
            0 <= worker < workers && 0 <= i && point == #[trigger] (worker + i * workers)
                ==> worker == point % workers && i == point / workers,
{
    vstd::arithmetic::div_mod::lemma_fundamental_div_mod(point, workers);
    assert(workers * (point / workers) == (point / workers) * workers) by (nonlinear_arith);
    assert(0 <= point % workers < workers) by (nonlinear_arith)
        requires
            workers > 0,
    ;
    assert forall|worker: int, i: int|
        0 <= worker < workers && 0 <= i && point == #[trigger] (worker + i * workers) implies worker
        == point % workers && i == point / workers by {
        assert(i * workers == workers * i) by (nonlinear_arith);
        vstd::arithmetic::div_mod::lemma_fundamental_div_mod_converse(point, workers, i, worker);
    }
}

/// The rows of a replay, added up. Fractions and means are taken by the caller.
#[derive(Clone, Copy, PartialEq, Eq, Structural, Debug)]
pub struct SweepAggregate {
    /// Windows traded.
    pub windows_traded: u32,
    /// Net ledger PnL.
    pub net_pnl: Amount,
    /// Ledger PnL per traded window.
    pub pnl_per_window: Amount,
    /// Locked-pair PnL.
    pub locked_pair_pnl: Amount,
    /// Inventory PnL.
    pub inventory_pnl: Amount,
    /// Taker fees paid.
    pub fees_paid: Amount,
    /// Estimated maker rebates.
    pub rebates_earned: Amount,
    /// Maker fills.
    pub maker_fills: u64,
    /// Taker fills.
    pub taker_fills: u64,
    /// Price times size of taker fills.
    pub taker_notional: Amount,
    /// Five-second markouts counted.
    pub markout_n: u64,
    /// Taker notional per window, as a share of the window's budget.
    pub taker_budget_used: Option<Amount>,
}

impl SweepAggregate {
    /// The rows added up.
    pub open spec fn of_rows(
        rows: Seq<SeriesComparisonRow>,
        taker_budget: Amount,
    ) -> SweepAggregate {
        let windows = counted(rows, by_windows_traded(), u32::MAX as int) as u32;
        let net_pnl = money(rows, by_net_pnl());
        let taker_notional = money(rows, by_taker_notional());
        SweepAggregate {
            windows_traded: windows,
            net_pnl,
            pnl_per_window: per_window_of(net_pnl, windows),
            locked_pair_pnl: money(rows, by_locked_pair_pnl()),
            inventory_pnl: money(rows, by_inventory_pnl()),
            fees_paid: money(rows, by_fees_paid()),
            rebates_earned: money(rows, by_rebates_earned()),
            maker_fills: counted(rows, by_maker_fills(), u64::MAX as int) as u64,
            taker_fills: counted(rows, by_taker_fills(), u64::MAX as int) as u64,
            taker_notional,
            markout_n: counted(rows, by_markouts(), u64::MAX as int) as u64,
            taker_budget_used: budget_share(taker_notional, windows, taker_budget),
        }
    }

    /// The figure that a sweep is ranked by. Health does not add up and ranks nothing.
    pub open spec fn figure(self, col: SortColumn) -> SortFigure {
        match col {
            SortColumn::NetPnl => SortFigure::Money(self.net_pnl),
            SortColumn::PnlPerWindow => SortFigure::Money(self.pnl_per_window),
            SortColumn::FractionProfitable => SortFigure::FractionProfitable,
            SortColumn::WindowsTraded => SortFigure::Count(self.windows_traded as u64),
            SortColumn::AvgMarkout5s => SortFigure::AverageMarkout,
            SortColumn::FeesPaid => SortFigure::Money(self.fees_paid),
            SortColumn::RebatesEarned => SortFigure::Money(self.rebates_earned),
            SortColumn::LockedPairPnl => SortFigure::Money(self.locked_pair_pnl),
            SortColumn::InventoryPnl => SortFigure::Money(self.inventory_pnl),
            SortColumn::TakerBudgetUsed => SortFigure::BudgetShare(self.taker_budget_used),
            SortColumn::MakerFills => SortFigure::Count(self.maker_fills),
            SortColumn::TakerFills => SortFigure::Count(self.taker_fills),
            SortColumn::Health => SortFigure::Rank(0),
        }
    }

    /// The figure that a sweep is ranked by.
    pub fn rank_figure(&self, col: SortColumn) -> (r: SortFigure)
        ensures
            r == self.figure(col),
    {
        match col {
            SortColumn::NetPnl => SortFigure::Money(self.net_pnl),
            SortColumn::PnlPerWindow => SortFigure::Money(self.pnl_per_window),
            SortColumn::FractionProfitable => SortFigure::FractionProfitable,
            SortColumn::WindowsTraded => SortFigure::Count(self.windows_traded as u64),
            SortColumn::AvgMarkout5s => SortFigure::AverageMarkout,
            SortColumn::FeesPaid => SortFigure::Money(self.fees_paid),
            SortColumn::RebatesEarned => SortFigure::Money(self.rebates_earned),
            SortColumn::LockedPairPnl => SortFigure::Money(self.locked_pair_pnl),
            SortColumn::InventoryPnl => SortFigure::Money(self.inventory_pnl),
            SortColumn::TakerBudgetUsed => SortFigure::BudgetShare(self.taker_budget_used),
            SortColumn::MakerFills => SortFigure::Count(self.maker_fills),
            SortColumn::TakerFills => SortFigure::Count(self.taker_fills),
            SortColumn::Health => SortFigure::Rank(0),
        }
    }
}

/// Six sums of the rows, in the order of a row's amounts.
struct Sums {
    net_pnl: Amount,
    locked_pair_pnl: Amount,
    inventory_pnl: Amount,
    fees_paid: Amount,
    rebates_earned: Amount,
    taker_notional: Amount,
}

impl Sums {
    /// Whether the sums are those of some rows.
    spec fn holds(self, rows: Seq<SeriesComparisonRow>) -> bool {
        &&& self.net_pnl == money(rows, by_net_pnl())
        &&& self.locked_pair_pnl == money(rows, by_locked_pair_pnl())
        &&& self.inventory_pnl == money(rows, by_inventory_pnl())
        &&& self.fees_paid == money(rows, by_fees_paid())
        &&& self.rebates_earned == money(rows, by_rebates_earned())
        &&& self.taker_notional == money(rows, by_taker_notional())
    }

    /// The sums with one more row, `None` where one of them is beyond the largest decimal.
    fn checked_row(&self, row: &SeriesComparisonRow) -> (r: Option<Sums>)
        ensures
            r is Some <==> {
                &&& Amount::has_sum(self.net_pnl, row.net_pnl)
                &&& Amount::has_sum(self.locked_pair_pnl, row.locked_pair_pnl)
                &&& Amount::has_sum(self.inventory_pnl, row.inventory_pnl)
                &&& Amount::has_sum(self.fees_paid, row.fees_paid)
                &&& Amount::has_sum(self.rebates_earned, row.rebates_earned)
                &&& Amount::has_sum(self.taker_notional, row.taker_notional)
            },
            r matches Some(sums) ==> sums == (Sums {
                net_pnl: Amount::sum_of(self.net_pnl, row.net_pnl),
                locked_pair_pnl: Amount::sum_of(self.locked_pair_pnl, row.locked_pair_pnl),
                inventory_pnl: Amount::sum_of(self.inventory_pnl, row.inventory_pnl),
                fees_paid: Amount::sum_of(self.fees_paid, row.fees_paid),
                rebates_earned: Amount::sum_of(self.rebates_earned, row.rebates_earned),
                taker_notional: Amount::sum_of(self.taker_notional, row.taker_notional),
            }),
    {
        let net_pnl = self.net_pnl.checked_plus(&row.net_pnl);
        let locked_pair_pnl = self.locked_pair_pnl.checked_plus(&row.locked_pair_pnl);
        let inventory_pnl = self.inventory_pnl.checked_plus(&row.inventory_pnl);
        let fees_paid = self.fees_paid.checked_plus(&row.fees_paid);
        let rebates_earned = self.rebates_earned.checked_plus(&row.rebates_earned);
        let taker_notional = self.taker_notional.checked_plus(&row.taker_notional);
        match (
            net_pnl,
            locked_pair_pnl,
            inventory_pnl,
            fees_paid,
            rebates_earned,
            taker_notional,
        ) {
            (
                Some(net_pnl),
                Some(locked_pair_pnl),
                Some(inventory_pnl),
                Some(fees_paid),
                Some(rebates_earned),
                Some(taker_notional),
            ) => Some(
                Sums {
                    net_pnl,
                    locked_pair_pnl,
                    inventory_pnl,
                    fees_paid,
                    rebates_earned,
                    taker_notional,
                },
            ),
            _ => None,
        }
    }
}

/// A count that stays at the largest value.
fn add_count(a: u64, b: u64) -> (r: u64)
    ensures
        r == crate::decimal::min_int(a + b, u64::MAX as int),
{
    if b > u64::MAX - a {
        u64::MAX
    } else {
        a + b
    }
}

/// The money of the rows, `None` where an amount of theirs does not add up within the decimal type.
fn sum_rows(rows: &Vec<SeriesComparisonRow>) -> (r: Option<Sums>)
    ensures
        r is Some <==> has_sums(rows@),
        r matches Some(sums) ==> sums.holds(rows@),
{
    let mut sums = Sums {
        net_pnl: Amount::zero(),
        locked_pair_pnl: Amount::zero(),
        inventory_pnl: Amount::zero(),
        fees_paid: Amount::zero(),
        rebates_earned: Amount::zero(),
        taker_notional: Amount::zero(),
    };
    let mut i: usize = 0;
    assert(rows@.subrange(0, 0) =~= Seq::empty());
    while i < rows.len()
        invariant
            i <= rows@.len(),
            has_sums(rows@.subrange(0, i as int)),
            sums.holds(rows@.subrange(0, i as int)),
        decreases rows.len() - i,
    {
        proof {
            lemma_prefix(rows@, i as int);
            lemma_money_of_first(rows@, by_net_pnl(), i + 1);
            lemma_money_of_first(rows@, by_locked_pair_pnl(), i + 1);
            lemma_money_of_first(rows@, by_inventory_pnl(), i + 1);
            lemma_money_of_first(rows@, by_fees_paid(), i + 1);
            lemma_money_of_first(rows@, by_rebates_earned(), i + 1);
            lemma_money_of_first(rows@, by_taker_notional(), i + 1);
        }
        sums =
        match sums.checked_row(&rows[i]) {
            Some(next) => next,
            None => return None,
        };
        i = i + 1;
    }
    assert(rows@.subrange(0, i as int) =~= rows@);
    Some(sums)
}

/// The rows of a replay, added up.
pub fn aggregate(rows: &Vec<SeriesComparisonRow>, taker_budget: &Amount) -> (r: SweepAggregate)
    requires
        has_aggregate(rows@, *taker_budget),
    ensures
        r == SweepAggregate::of_rows(rows@, *taker_budget),
{
    checked_aggregate(rows, taker_budget).unwrap()
}

/// The rows of a replay, added up; `None` where a figure is beyond the largest decimal.
pub fn checked_aggregate(rows: &Vec<SeriesComparisonRow>, taker_budget: &Amount) -> (r: Option<
    SweepAggregate,
>)
    ensures
        r is Some <==> has_aggregate(rows@, *taker_budget),
        r matches Some(a) ==> a == SweepAggregate::of_rows(rows@, *taker_budget),
{
    let sums = match sum_rows(rows) {
        Some(sums) => sums,
        None => return None,
    };
    let mut windows_traded: u32 = 0;
    let mut maker_fills: u64 = 0;
    let mut taker_fills: u64 = 0;
    let mut markout_n: u64 = 0;
    let mut i: usize = 0;
    assert(rows@.subrange(0, 0) =~= Seq::empty());
    while i < rows.len()
        invariant
            i <= rows@.len(),
            windows_traded == counted(
                rows@.subrange(0, i as int),
                by_windows_traded(),
                u32::MAX as int,
            ),
            maker_fills == counted(rows@.subrange(0, i as int), by_maker_fills(), u64::MAX as int),
            taker_fills == counted(rows@.subrange(0, i as int), by_taker_fills(), u64::MAX as int),
            markout_n == counted(rows@.subrange(0, i as int), by_markouts(), u64::MAX as int),
        decreases rows.len() - i,
    {
        let r = &rows[i];
        proof {
            let part = rows@.subrange(0, i + 1);
            assert(part.drop_last() =~= rows@.subrange(0, i as int));
            assert(part.last() == *r);
        }
        windows_traded =
        if r.windows_traded > u32::MAX - windows_traded {
            u32::MAX
        } else {
            windows_traded + r.windows_traded
        };
        maker_fills = add_count(maker_fills, r.maker_fills);
        taker_fills = add_count(taker_fills, r.taker_fills);
        markout_n = add_count(markout_n, r.markout_5s_n);
        i = i + 1;
    }
    assert(rows@.subrange(0, i as int) =~= rows@);
    let pnl_per_window = match checked_per_window(&sums.net_pnl, windows_traded) {
        Some(q) => q,
        None => return None,
    };
    let taker_budget_used = if !taker_budget.is_positive() || windows_traded == 0 {
        None
    } else {
        match checked_per_window(&sums.taker_notional, windows_traded) {
            Some(q) => match q.divided_by(taker_budget) {
                Some(share) => Some(share),
                None => return None,
            },
            None => return None,
        }
    };
    Some(SweepAggregate {
        windows_traded,
        net_pnl: sums.net_pnl,
        pnl_per_window,
        locked_pair_pnl: sums.locked_pair_pnl,
        inventory_pnl: sums.inventory_pnl,
        fees_paid: sums.fees_paid,
        rebates_earned: sums.rebates_earned,
        maker_fills,
        taker_fills,
        taker_notional: sums.taker_notional,
        markout_n,
        taker_budget_used,
    })
}

/// A point of a sweep with what it gave.
#[derive(Clone, Debug)]
pub struct SweepRow {
    /// The point.
    pub point: SweepPoint,
    /// Its comparison.
    pub comparison: SeriesComparison,
    /// Its rows, added up.
    pub aggregate: SweepAggregate,
}

/// A sweep's rows, best first.
#[derive(Clone, Debug)]
pub struct SweepReport {
    /// The column that the rows are ranked by.
    pub rank_metric: SortColumn,
    /// The points of the grid.
    pub points_total: usize,
    /// The rows.
    pub rows: Vec<SweepRow>,
}

/// One more row adds each of its figures to that same figure of the aggregate, counts staying at
/// their largest value; no rows add up to nothing.
pub proof fn law_row_adds_to_its_own_figures(
    rows: Seq<SeriesComparisonRow>,
    row: SeriesComparisonRow,
    budget: Amount,
)
    ensures
        ({
            let a = SweepAggregate::of_rows(rows, budget);
            let b = SweepAggregate::of_rows(rows.push(row), budget);
            &&& b.net_pnl == Amount::sum_of(a.net_pnl, row.net_pnl)
            &&& b.locked_pair_pnl == Amount::sum_of(a.locked_pair_pnl, row.locked_pair_pnl)
            &&& b.inventory_pnl == Amount::sum_of(a.inventory_pnl, row.inventory_pnl)
            &&& b.fees_paid == Amount::sum_of(a.fees_paid, row.fees_paid)
            &&& b.rebates_earned == Amount::sum_of(a.rebates_earned, row.rebates_earned)
            &&& b.taker_notional == Amount::sum_of(a.taker_notional, row.taker_notional)
            &&& b.windows_traded == crate::decimal::min_int(
                a.windows_traded + row.windows_traded,
                u32::MAX as int,
            )
            &&& b.maker_fills == crate::decimal::min_int(
                a.maker_fills + row.maker_fills,
                u64::MAX as int,
            )
            &&& b.taker_fills == crate::decimal::min_int(
                a.taker_fills + row.taker_fills,
                u64::MAX as int,
            )
            &&& b.markout_n == crate::decimal::min_int(
                a.markout_n + row.markout_5s_n,
                u64::MAX as int,
            )
            &&& b.windows_traded > 0 ==> Amount::quotient_of(
                b.net_pnl,
                Amount::of_parts((b.windows_traded as int, 0)),
            ) == Some(b.pnl_per_window) || Amount::quotient_of(
                b.net_pnl,
                Amount::of_parts((b.windows_traded as int, 0)),
            ) is None
            &&& b.windows_traded == 0 || budget.value() <= 0 ==> b.taker_budget_used is None
        }),
        SweepAggregate::of_rows(Seq::empty(), budget).windows_traded == 0,
        SweepAggregate::of_rows(Seq::empty(), budget).net_pnl.value() == 0,
        SweepAggregate::of_rows(Seq::empty(), budget).maker_fills == 0,
        SweepAggregate::of_rows(Seq::empty(), budget).taker_fills == 0,
{
    Amount::lemma_zero_value();
    assert(rows.push(row).drop_last() =~= rows);
    lemma_counted_within(rows, by_windows_traded(), u32::MAX as int);
    lemma_counted_within(rows, by_maker_fills(), u64::MAX as int);
    lemma_counted_within(rows, by_taker_fills(), u64::MAX as int);
    lemma_counted_within(rows, by_markouts(), u64::MAX as int);
}

proof fn lemma_counted_within(
    rows: Seq<SeriesComparisonRow>,
    what: spec_fn(SeriesComparisonRow) -> int,
    top: int,
)
    requires
        top >= 0,
        forall|r: SeriesComparisonRow| #[trigger] what(r) >= 0,
    ensures
        0 <= counted(rows, what, top) <= top,
    decreases rows.len(),
{
    if rows.len() > 0 {
        lemma_counted_within(rows.drop_last(), what, top);
        assert(what(rows.last()) >= 0);
    }
}

/// A sweep is ranked by the figure of its own column; the alarm state ranks nothing.
pub proof fn law_sweep_is_ranked_by_its_own_figure(a: SweepAggregate)
    ensures
        a.figure(SortColumn::NetPnl) == SortFigure::Money(a.net_pnl),
        a.figure(SortColumn::PnlPerWindow) == SortFigure::Money(a.pnl_per_window),
        a.figure(SortColumn::FeesPaid) == SortFigure::Money(a.fees_paid),
        a.figure(SortColumn::RebatesEarned) == SortFigure::Money(a.rebates_earned),
        a.figure(SortColumn::LockedPairPnl) == SortFigure::Money(a.locked_pair_pnl),
        a.figure(SortColumn::InventoryPnl) == SortFigure::Money(a.inventory_pnl),
        a.figure(SortColumn::WindowsTraded) == SortFigure::Count(a.windows_traded as u64),
        a.figure(SortColumn::MakerFills) == SortFigure::Count(a.maker_fills),
        a.figure(SortColumn::TakerFills) == SortFigure::Count(a.taker_fills),
        a.figure(SortColumn::TakerBudgetUsed) == SortFigure::BudgetShare(a.taker_budget_used),
        a.figure(SortColumn::FractionProfitable) == SortFigure::FractionProfitable,
        a.figure(SortColumn::AvgMarkout5s) == SortFigure::AverageMarkout,
        a.figure(SortColumn::Health) == SortFigure::Rank(0),
{
}

/// A ranking puts every point in, each once: larger keys first where larger is better and smaller
/// ones first where it is not, equal ones in grid order.
pub proof fn law_ranked_best_first(
    keys: Seq<i64>,
    higher: bool,
    order: Seq<usize>,
    j: int,
    k: int,
)
    requires
        is_ranking(keys, higher, order),
        0 <= j < k < order.len(),
    ensures
        higher ==> keys[order[j] as int] >= keys[order[k] as int],
        !higher ==> keys[order[j] as int] <= keys[order[k] as int],
        keys[order[j] as int] == keys[order[k] as int] ==> order[j] < order[k],
        order[j] != order[k],
{
}

/// A summary at the end tells what was dropped and seen, and of the tape what it told before.
pub proof fn law_summary_tells_what_was_seen(
    first: ReplaySummary,
    dropped: u64,
    seen: Seen,
    rows: Seq<SeriesComparisonRow>,
    row: SeriesComparisonRow,
)
    ensures
        ({
            let end = first.finished_spec(dropped, seen, rows);
            &&& end.events_total == first.events_total
            &&& end.events_dropped == dropped
            &&& end.fills == seen.fills && end.order_updates == seen.order_updates
                && end.windows_settled == seen.windows_settled
            &&& end.first_event_ms == first.first_event_ms && end.last_event_ms
                == first.last_event_ms
            &&& first.finished_spec(dropped, seen, rows.push(row)).net_pnl == Amount::sum_of(
                end.net_pnl,
                row.net_pnl,
            )
        }),
{
    assert(rows.push(row).drop_last() =~= rows);
}

/// Whether the `a`-th point ranks before the `b`-th: by key, in the column's direction, then by
/// its place in the grid.
pub open spec fn ranks_before(keys: Seq<i64>, higher: bool, a: int, b: int) -> bool {
    ||| keys[a] != keys[b] && (keys[a] > keys[b]) == higher
    ||| keys[a] == keys[b] && a < b
}

/// Whether some places are all the places of a list of keys, each once, in ranked order.
pub open spec fn is_ranking(keys: Seq<i64>, higher: bool, order: Seq<usize>) -> bool {
    &&& order.len() == keys.len()
    &&& forall|j: int| 0 <= j < order.len() ==> #[trigger] order[j] < keys.len()
    &&& forall|j: int, k: int|
        0 <= j < k < order.len() ==> ranks_before(
            keys,
            higher,
            #[trigger] order[j] as int,
            #[trigger] order[k] as int,
        )
}

/// The places of a list of keys, best first.
pub fn ranking(keys: &Vec<i64>, higher: bool) -> (r: Vec<usize>)
    ensures
        is_ranking(keys@, higher, r@),
{
    let mut order: Vec<usize> = Vec::new();
    let mut i: usize = 0;
    while i < keys.len()
        invariant
            i <= keys@.len(),
            order@.len() == i,
            forall|j: int| 0 <= j < order@.len() ==> #[trigger] order@[j] < i,
            forall|j: int, k: int|
                0 <= j < k < order@.len() ==> ranks_before(
                    keys@,
                    higher,
                    #[trigger] order@[j] as int,
                    #[trigger] order@[k] as int,
                ),
        decreases keys.len() - i,
    {
        let ghost before = order@;
        let mut at: usize = 0;
        while at < order.len() && (keys[order[at]] == keys[i] || (keys[order[at]] > keys[i])
            == higher)
            invariant
                i < keys@.len(),
                order@ == before,
                before.len() == i,
                at <= before.len(),
                forall|j: int| 0 <= j < before.len() ==> #[trigger] before[j] < i,
                forall|j: int|
                    0 <= j < at ==> ranks_before(keys@, higher, #[trigger] before[j] as int, i as int),
            decreases before.len() - at,
        {
            at = at + 1;
        }
        order.insert(at, i);
        proof {
            assert(order@ =~= before.insert(at as int, i));
            assert forall|j: int, k: int| 0 <= j < k < order@.len() implies ranks_before(
                keys@,
                higher,
                #[trigger] order@[j] as int,
                #[trigger] order@[k] as int,
            ) by {
                if k == at {
                    assert(order@[j] == before[j]);
                } else if j == at {
                    assert(order@[k] == before[k - 1]);
                    assert(ranks_before(keys@, higher, i as int, before[at as int] as int));
                    if k - 1 > at {
                        assert(ranks_before(
                            keys@,
                            higher,
                            before[at as int] as int,
                            before[k - 1] as int,
                        ));
                    }
                } else {
                    let a = if j < at {
                        j
                    } else {
                        j - 1
                    };
                    let b = if k < at {
                        k
                    } else {
                        k - 1
                    };
                    assert(order@[j] == before[a]);
                    assert(order@[k] == before[b]);
                }
            }
            assert forall|j: int| 0 <= j < order@.len() implies #[trigger] order@[j] < i + 1 by {
                if j < at {
                    assert(order@[j] == before[j]);
                } else if j > at {
                    assert(order@[j] == before[j - 1]);
                }
            }
        }
        i = i + 1;
    }
    order
}

/// Keys have one ranking.
pub proof fn law_one_ranking(keys: Seq<i64>, higher: bool, a: Seq<usize>, b: Seq<usize>)
    requires
        is_ranking(keys, higher, a),
        is_ranking(keys, higher, b),
    ensures
        a == b,
{
    let before = |x: int, y: int| ranks_before(keys, higher, x, y);
    let x = a.map_values(|o: usize| o as int);
    let y = b.map_values(|o: usize| o as int);
    assert(in_order(before, x));
    assert(in_order(before, y));
    assert(is_strict(before));
    assert forall|p: int| #[trigger] x.contains(p) <==> y.contains(p) by {
        if 0 <= p < keys.len() {
            lemma_every_place(before, x, p);
            lemma_every_place(before, y, p);
        }
    }
    law_one_order(before, x, y);
    assert forall|j: int| 0 <= j < a.len() implies a[j] == b[j] by {
        assert(x[j] == y[j]);
    }
    assert(a =~= b);
}

/// Whether results are of points of a grid, none twice.
pub open spec fn results_ok(
    results: Seq<(usize, Result<ReplayOutput, ReplayError>)>,
    points: int,
) -> bool {
    &&& forall|i: int| 0 <= i < results.len() ==> (#[trigger] results[i]).0 < points
    &&& crate::table::unique_keys(results)
}

/// Whether an error is that of a point, and no point before it has one.
pub open spec fn first_error(
    results: Seq<(usize, Result<ReplayOutput, ReplayError>)>,
    k: int,
    e: ReplayError,
) -> bool {
    &&& crate::table::lookup(results, k as usize) == Some(Err::<ReplayOutput, ReplayError>(e))
    &&& forall|j: int|
        0 <= j < k ==> (#[trigger] crate::table::lookup(results, j as usize) matches Some(Ok(_)))
}

/// What a grid's results come to: that a worker failed where any is missing, else the error of
/// the first point in grid order that has one, else the outputs in grid order.
pub open spec fn is_collected(
    results: Seq<(usize, Result<ReplayOutput, ReplayError>)>,
    points: int,
    r: Result<Vec<ReplayOutput>, ReplayError>,
) -> bool {
    if results.len() != points {
        r == Err::<Vec<ReplayOutput>, ReplayError>(ReplayError::Worker)
    } else {
        match r {
            Ok(outputs) => {
                &&& outputs@.len() == points
                &&& forall|k: int|
                    #![trigger outputs@[k]]
                    0 <= k < points ==> crate::table::lookup(results, k as usize) == Some(
                        Ok::<ReplayOutput, ReplayError>(outputs@[k]),
                    )
            },
            Err(e) => exists|k: int| 0 <= k < points && #[trigger] first_error(results, k, e),
        }
    }
}

/// A full set of results holds every point's.
proof fn lemma_full(results: Seq<(usize, Result<ReplayOutput, ReplayError>)>, point: int)
    requires
        results_ok(results, results.len() as int),
        results.len() <= usize::MAX,
        0 <= point < results.len(),
    ensures
        crate::table::holds_key(results, point as usize),
{
    if !crate::table::holds_key(results, point as usize) {
        let n = results.len() as int;
        let keys = results.map_values(|e: (usize, Result<ReplayOutput, ReplayError>)| e.0 as int);
        assert(keys.no_duplicates()) by {
            assert forall|i: int, j: int| 0 <= i < keys.len() && 0 <= j < keys.len() && i != j
                implies keys[i] != keys[j] by {
                assert(results[i].0 != results[j].0);
            }
        }
        keys.unique_seq_to_set();
        let all = vstd::set_lib::set_int_range(0, n);
        vstd::set_lib::lemma_int_range(0, n);
        let rest = all.remove(point);
        assert(keys.to_set().subset_of(rest)) by {
            assert forall|k: int| keys.to_set().contains(k) implies rest.contains(k) by {
                let i = choose|i: int| 0 <= i < keys.len() && keys[i] == k;
                assert(results[i].0 as int == k);
                assert(results[i].0 < n);
            }
        }
        vstd::set_lib::lemma_len_subset(keys.to_set(), rest);
    }
}

/// Puts a grid's results in grid order.
pub fn collect(results: Vec<(usize, Result<ReplayOutput, ReplayError>)>, points: usize) -> (r:
    Result<Vec<ReplayOutput>, ReplayError>)
    requires
        results_ok(results@, points as int),
    ensures
        is_collected(results@, points as int, r),
{
    if results.len() != points {
        return Err(ReplayError::Worker);
    }
    let ghost all = results@;
    let mut rest = results;
    let mut outputs: Vec<ReplayOutput> = Vec::new();
    let mut k: usize = 0;
    while k < points
        invariant
            k <= points,
            all == results@,
            all.len() == points,
            results_ok(all, points as int),
            outputs@.len() == k,
            forall|j: int|
                #![trigger outputs@[j]]
                0 <= j < k ==> crate::table::lookup(all, j as usize) == Some(
                    Ok::<ReplayOutput, ReplayError>(outputs@[j]),
                ),
            forall|i: int| 0 <= i < rest@.len() ==> all.contains(#[trigger] rest@[i]),
            forall|i: int|
                0 <= i < all.len() && (#[trigger] all[i]).0 >= k ==> rest@.contains(all[i]),
        decreases points - k,
    {
        proof {
            lemma_full(all, k as int);
            let p = crate::table::place(all, k);
            assert(all[p].0 == k);
            assert(rest@.contains(all[p]));
        }
        let mut at: usize = 0;
        let left: usize = rest.len();
        while rest[at].0 != k
            invariant
                at < rest@.len(),
                left == rest@.len(),
                exists|i: int| at <= i < rest@.len() && (#[trigger] rest@[i]).0 == k,
            decreases rest@.len() - at,
        {
            at = at + 1;
        }
        let ghost before = rest@;
        let entry = rest.remove(at);
        proof {
            let p = choose|p: int| 0 <= p < all.len() && all[p] == before[at as int];
            crate::table::lemma_place(all, k, p);
            assert(crate::table::lookup(all, k) == Some(entry.1));
            assert forall|i: int| 0 <= i < rest@.len() implies all.contains(#[trigger] rest@[i]) by {
                assert(rest@[i] == before[if i < at {
                    i
                } else {
                    i + 1
                }]);
            }
            assert forall|i: int| 0 <= i < all.len() && (#[trigger] all[i]).0 >= k + 1 implies rest@.contains(
                all[i],
            ) by {
                let q = choose|q: int| 0 <= q < before.len() && before[q] == all[i];
                assert(q != at);
                assert(rest@[if q < at {
                    q
                } else {
                    q - 1
                }] == all[i]);
            }
        }
        match entry.1 {
            Ok(output) => {
                outputs.push(output);
            },
            Err(e) => {
                proof {
                    assert forall|j: int|
                        #![trigger crate::table::lookup(all, j as usize)]
                        0 <= j < k implies (crate::table::lookup(all, j as usize) matches Some(
                        Ok(_),
                    )) by {
                        assert(crate::table::lookup(all, j as usize) == Some(
                            Ok::<ReplayOutput, ReplayError>(outputs@[j]),
                        ));
                    }
                    assert(first_error(all, k as int, e));
                }
                return Err(e);
            },
        }
        k = k + 1;
    }
    Ok(outputs)
}

/// A grid's results come to the same in whatever order its points were run.
pub proof fn law_order_of_running_is_not_seen(
    a: Seq<(usize, Result<ReplayOutput, ReplayError>)>,
    b: Seq<(usize, Result<ReplayOutput, ReplayError>)>,
    points: usize,
    of_a: Result<Vec<ReplayOutput>, ReplayError>,
    of_b: Result<Vec<ReplayOutput>, ReplayError>,
)
    requires
        a.len() == b.len(),
        forall|k: usize| crate::table::lookup(a, k) == #[trigger] crate::table::lookup(b, k),
        is_collected(a, points as int, of_a),
        is_collected(b, points as int, of_b),
    ensures
        match (of_a, of_b) {
            (Ok(x), Ok(y)) => x@ == y@,
            (Err(x), Err(y)) => x == y,
            _ => false,
        },
{
    if a.len() == points {
        match (of_a, of_b) {
            (Ok(x), Ok(y)) => {
                assert forall|k: int| 0 <= k < points implies x@[k] == y@[k] by {
                    assert(crate::table::lookup(a, k as usize) == crate::table::lookup(
                        b,
                        k as usize,
                    ));
                }
                assert(x@ =~= y@);
            },
            (Err(x), Err(y)) => {
                let i = choose|k: int| 0 <= k < points && #[trigger] first_error(a, k, x);
                let j = choose|k: int| 0 <= k < points && #[trigger] first_error(b, k, y);
                assert(crate::table::lookup(a, i as usize) == crate::table::lookup(b, i as usize));
                assert(crate::table::lookup(a, j as usize) == crate::table::lookup(b, j as usize));
                assert(i == j);
            },
            (Ok(x), Err(y)) => {
                let j = choose|k: int| 0 <= k < points && #[trigger] first_error(b, k, y);
                assert(crate::table::lookup(a, j as usize) == crate::table::lookup(b, j as usize));
                assert(crate::table::lookup(a, j as usize) == Some(
                    Ok::<ReplayOutput, ReplayError>(x@[j]),
                ));
            },
            (Err(x), Ok(y)) => {
                let i = choose|k: int| 0 <= k < points && #[trigger] first_error(a, k, x);
                assert(crate::table::lookup(a, i as usize) == crate::table::lookup(b, i as usize));
                assert(crate::table::lookup(b, i as usize) == Some(
                    Ok::<ReplayOutput, ReplayError>(y@[i]),
                ));
            },
        }
    }
}

/// The row of a point.
pub open spec fn sweep_row(
    point: SweepPoint,
    output: ReplayOutput,
    taker_budget: Amount,
) -> SweepRow {
    SweepRow {
        point,
        comparison: output.comparison,
        aggregate: SweepAggregate::of_rows(output.comparison.rows@, taker_budget),
    }
}

/// Whether a report is that of a grid's points with their outputs, in the ranking of their keys.
pub open spec fn is_report(
    rank_metric: SortColumn,
    points: Seq<SweepPoint>,
    outputs: Seq<ReplayOutput>,
    keys: Seq<i64>,
    taker_budget: Amount,
    r: SweepReport,
) -> bool {
    &&& r.rank_metric == rank_metric && r.points_total == points.len()
    &&& exists|order: Seq<usize>|
        #![trigger is_ranking(keys, rank_metric.higher_is_better_spec(), order)]
        is_ranking(keys, rank_metric.higher_is_better_spec(), order) && r.rows@.len()
            == order.len() && forall|j: int|
            0 <= j < order.len() ==> #[trigger] r.rows@[j] == sweep_row(
                points[order[j] as int],
                outputs[order[j] as int],
                taker_budget,
            )
}

/// The report of a grid is the same in whatever order its points were run, one after the other or
/// side by side.
pub proof fn law_report_is_the_same_in_any_order(
    a: Seq<(usize, Result<ReplayOutput, ReplayError>)>,
    b: Seq<(usize, Result<ReplayOutput, ReplayError>)>,
    of_a: Vec<ReplayOutput>,
    of_b: Vec<ReplayOutput>,
    rank_metric: SortColumn,
    points: Seq<SweepPoint>,
    keys: Seq<i64>,
    taker_budget: Amount,
    from_a: SweepReport,
    from_b: SweepReport,
)
    requires
        points.len() <= usize::MAX,
        keys.len() == points.len(),
        a.len() == b.len(),
        forall|k: usize| crate::table::lookup(a, k) == #[trigger] crate::table::lookup(b, k),
        is_collected(a, points.len() as int, Ok::<Vec<ReplayOutput>, ReplayError>(of_a)),
        is_collected(b, points.len() as int, Ok::<Vec<ReplayOutput>, ReplayError>(of_b)),
        is_report(rank_metric, points, of_a@, keys, taker_budget, from_a),
        is_report(rank_metric, points, of_b@, keys, taker_budget, from_b),
    ensures
        from_a.rank_metric == from_b.rank_metric,
        from_a.points_total == from_b.points_total,
        from_a.rows@ == from_b.rows@,
{
    law_order_of_running_is_not_seen(a, b, points.len() as usize, Ok(of_a), Ok(of_b));
    let higher = rank_metric.higher_is_better_spec();
    let x = choose|order: Seq<usize>|
        #![trigger is_ranking(keys, higher, order)]
        is_ranking(keys, higher, order) && from_a.rows@.len() == order.len() && forall|j: int|
            0 <= j < order.len() ==> #[trigger] from_a.rows@[j] == sweep_row(
                points[order[j] as int],
                of_a@[order[j] as int],
                taker_budget,
            );
    let y = choose|order: Seq<usize>|
        #![trigger is_ranking(keys, higher, order)]
        is_ranking(keys, higher, order) && from_b.rows@.len() == order.len() && forall|j: int|
            0 <= j < order.len() ==> #[trigger] from_b.rows@[j] == sweep_row(
                points[order[j] as int],
                of_b@[order[j] as int],
                taker_budget,
            );
    law_one_ranking(keys, higher, x, y);
    assert(from_a.rows@ =~= from_b.rows@);
}

/// Whether the rows of every output have an aggregate.
pub open spec fn all_add_up(outputs: Seq<ReplayOutput>, taker_budget: Amount) -> bool {
    forall|i: int|
        0 <= i < outputs.len() ==> has_aggregate(
            (#[trigger] outputs[i]).comparison.rows@,
            taker_budget,
        )
}

/// The aggregate of each output, `None` where one has none.
fn aggregates(outputs: &Vec<ReplayOutput>, taker_budget: &Amount) -> (r: Option<
    Vec<SweepAggregate>,
>)
    ensures
        r is Some <==> all_add_up(outputs@, *taker_budget),
        r matches Some(v) ==> v@.len() == outputs@.len() && forall|i: int|
            0 <= i < v@.len() ==> #[trigger] v@[i] == SweepAggregate::of_rows(
                outputs@[i].comparison.rows@,
                *taker_budget,
            ),
{
    let mut out: Vec<SweepAggregate> = Vec::new();
    let mut i: usize = 0;
    while i < outputs.len()
        invariant
            i <= outputs@.len(),
            out@.len() == i,
            forall|j: int|
                0 <= j < i ==> has_aggregate(
                    (#[trigger] outputs@[j]).comparison.rows@,
                    *taker_budget,
                ),
            forall|j: int|
                0 <= j < i ==> #[trigger] out@[j] == SweepAggregate::of_rows(
                    outputs@[j].comparison.rows@,
                    *taker_budget,
                ),
        decreases outputs.len() - i,
    {
        match checked_aggregate(&outputs[i].comparison.rows, taker_budget) {
            Some(a) => out.push(a),
            None => {
                assert(!has_aggregate(outputs@[i as int].comparison.rows@, *taker_budget));
                return None;
            },
        }
        i = i + 1;
    }
    Some(out)
}

impl SweepReport {
    /// Ranks the outputs of a grid's points. `keys` holds the order key of each point's figure
    /// in the ranked column.
    pub fn new(
        rank_metric: SortColumn,
        points: &Vec<SweepPoint>,
        outputs: Vec<ReplayOutput>,
        keys: &Vec<i64>,
        taker_budget: &Amount,
    ) -> (r: SweepReport)
        requires
            outputs@.len() == points@.len(),
            keys@.len() == points@.len(),
            all_add_up(outputs@, *taker_budget),
        ensures
            is_report(rank_metric, points@, outputs@, keys@, *taker_budget, r),
    {
        SweepReport::checked_new(rank_metric, points, outputs, keys, taker_budget).unwrap()
    }

    /// Ranks the outputs of a grid's points; `None` where the rows of one do not add up within the
    /// decimal type. `keys` holds the order key of each point's figure in the ranked column.
    pub fn checked_new(
        rank_metric: SortColumn,
        points: &Vec<SweepPoint>,
        outputs: Vec<ReplayOutput>,
        keys: &Vec<i64>,
        taker_budget: &Amount,
    ) -> (r: Option<SweepReport>)
        requires
            outputs@.len() == points@.len(),
            keys@.len() == points@.len(),
        ensures
            r is Some <==> all_add_up(outputs@, *taker_budget),
            r matches Some(report) ==> is_report(
                rank_metric,
                points@,
                outputs@,
                keys@,
                *taker_budget,
                report,
            ),
    {
        let sums = match aggregates(&outputs, taker_budget) {
            Some(sums) => sums,
            None => return None,
        };
        let order = ranking(keys, rank_metric.higher_is_better());
        let ghost all = outputs@;
        let ghost n = points@.len();
        let mut rest: Vec<Option<ReplayOutput>> = Vec::new();
        let mut given = outputs;
        while given.len() > 0
            invariant
                given@.len() + rest@.len() == all.len(),
                given@ == all.subrange(0, given@.len() as int),
                forall|i: int|
                    0 <= i < rest@.len() ==> #[trigger] rest@[i] == Some(
                        all[all.len() - 1 - i],
                    ),
            decreases given@.len(),
        {
            match given.pop() {
                Some(o) => {
                    rest.push(Some(o));
                },
                None => {},
            }
            assert(given@ =~= all.subrange(0, given@.len() as int));
        }
        let mut rows: Vec<SweepRow> = Vec::new();
        let mut j: usize = 0;
        while j < order.len()
            invariant
                j <= order@.len(),
                order@.len() == n,
                n == points@.len(),
                all.len() == n,
                rest@.len() == n,
                is_ranking(keys@, rank_metric.higher_is_better_spec(), order@),
                keys@.len() == n,
                sums@.len() == n,
                forall|i: int|
                    0 <= i < sums@.len() ==> #[trigger] sums@[i] == SweepAggregate::of_rows(
                        all[i].comparison.rows@,
                        *taker_budget,
                    ),
                rows@.len() == j,
                forall|i: int|
                    0 <= i < j ==> #[trigger] rows@[i] == sweep_row(
                        points@[order@[i] as int],
                        all[order@[i] as int],
                        *taker_budget,
                    ),
                forall|i: int|
                    j <= i < n ==> rest@[n - 1 - #[trigger] order@[i]] == Some(
                        all[order@[i] as int],
                    ),
            decreases order.len() - j,
        {
            let at: usize = order[j];
            let slot: usize = rest.len() - 1 - at;
            let ghost before = rest@;
            let mut taken: Option<ReplayOutput> = None;
            std::mem::swap(&mut taken, &mut rest[slot]);
            proof {
                assert forall|i: int| j + 1 <= i < n implies rest@[n - 1 - #[trigger] order@[i]]
                    == Some(all[order@[i] as int]) by {
                    assert(ranks_before(
                        keys@,
                        rank_metric.higher_is_better_spec(),
                        order@[j as int] as int,
                        order@[i] as int,
                    ));
                    assert(order@[i] != at);
                }
            }
            if let Some(output) = taken {
                rows.push(
                    SweepRow {
                        point: points[at],
                        comparison: output.comparison,
                        aggregate: sums[at],
                    },
                );
            }
            j = j + 1;
        }
        Some(SweepReport { rank_metric, points_total: points.len(), rows })
    }
}

/// Whether a sweep's results lead to a report that is within the decimal type: whether the rows of
/// every output have an aggregate, where all of them came.
pub open spec fn sums_up(
    results: Seq<(usize, Result<ReplayOutput, ReplayError>)>,
    points: int,
    taker_budget: Amount,
) -> bool {
    forall|outputs: Vec<ReplayOutput>|
        #![trigger outputs@]
        is_collected(results, points, Ok::<Vec<ReplayOutput>, ReplayError>(outputs)) ==> all_add_up(
            outputs@,
            taker_budget,
        )
}

/// Whether a sweep gives what it gives: a tape without records, or a paper venue without a seed, is
/// refused whatever came back; otherwise the first error of a point comes out, or the report.
pub open spec fn is_sweep(
    records: usize,
    base: ReplayConfig,
    points: Seq<SweepPoint>,
    rank_metric: SortColumn,
    results: Seq<(usize, Result<ReplayOutput, ReplayError>)>,
    keys: Seq<i64>,
    r: Result<SweepReport, ReplayError>,
) -> bool {
    if records == 0 {
        r == Err::<SweepReport, ReplayError>(ReplayError::EmptyTape)
    } else if base.rng_seed is None {
        r == Err::<SweepReport, ReplayError>(ReplayError::UnseededPaper)
    } else {
        match r {
            Err(e) => is_collected(
                results,
                points.len() as int,
                Err::<Vec<ReplayOutput>, ReplayError>(e),
            ),
            Ok(report) => exists|outputs: Vec<ReplayOutput>|
                #![trigger outputs@]
                is_collected(
                    results,
                    points.len() as int,
                    Ok::<Vec<ReplayOutput>, ReplayError>(outputs),
                ) && is_report(
                    rank_metric,
                    points,
                    outputs@,
                    keys,
                    base.analytics.taker_budget_per_window,
                    report,
                ),
        }
    }
}

/// The report of a sweep, from what each point of its grid gave. A tape without records, or a
/// paper venue without a seed, is refused whatever came back. `keys` holds the order key of each
/// point's figure in the ranked column, in grid order.
pub fn run_sweep(
    records: usize,
    base: &ReplayConfig,
    grid: &SweepGrid,
    rank_metric: SortColumn,
    results: Vec<(usize, Result<ReplayOutput, ReplayError>)>,
    keys: &Vec<i64>,
) -> (r: Result<SweepReport, ReplayError>)
    requires
        results_ok(results@, grid.points_spec(*base).len() as int),
        keys@.len() == grid.points_spec(*base).len(),
        sums_up(
            results@,
            grid.points_spec(*base).len() as int,
            base.analytics.taker_budget_per_window,
        ),
    ensures
        is_sweep(records, *base, grid.points_spec(*base), rank_metric, results@, keys@, r),
{
    checked_sweep(records, base, grid, rank_metric, results, keys).unwrap()
}

/// The report of a sweep, as [`run_sweep`] gives it; `None` where every point gave an output and the
/// rows of one do not add up within the decimal type.
pub fn checked_sweep(
    records: usize,
    base: &ReplayConfig,
    grid: &SweepGrid,
    rank_metric: SortColumn,
    results: Vec<(usize, Result<ReplayOutput, ReplayError>)>,
    keys: &Vec<i64>,
) -> (r: Option<Result<SweepReport, ReplayError>>)
    requires
        results_ok(results@, grid.points_spec(*base).len() as int),
        keys@.len() == grid.points_spec(*base).len(),
    ensures
        r is None <==> records > 0 && base.rng_seed is Some && !sums_up(
            results@,
            grid.points_spec(*base).len() as int,
            base.analytics.taker_budget_per_window,
        ),
        r matches Some(given) ==> is_sweep(
            records,
            *base,
            grid.points_spec(*base),
            rank_metric,
            results@,
            keys@,
            given,
        ),
{
    if let Err(e) = check_replay(records, base) {
        return Some(Err(e));
    }
    let points = grid.points(base);
    let ghost all = results@;
    let ghost n = points@.len() as int;
    let budget = base.analytics.taker_budget_per_window;
    match collect(results, points.len()) {
        Err(e) => {
            proof {
                assert forall|outputs: Vec<ReplayOutput>|
                    #![trigger outputs@]
                    is_collected(all, n, Ok::<Vec<ReplayOutput>, ReplayError>(
                        outputs,
                    )) implies all_add_up(outputs@, budget) by {
                    assert(is_collected(all, n, Err::<Vec<ReplayOutput>, ReplayError>(e)));
                    assert(all.len() == n);
                    let k = choose|k: int| 0 <= k < n && #[trigger] first_error(all, k, e);
                    assert(first_error(all, k, e));
                    assert(crate::table::lookup(all, k as usize) == Some(
                        Ok::<ReplayOutput, ReplayError>(outputs@[k]),
                    ));
                }
            }
            Some(Err(e))
        },
        Ok(outputs) => {
            let ghost given = outputs;
            let report = SweepReport::checked_new(rank_metric, &points, outputs, keys, &budget);
            proof {
                assert forall|other: Vec<ReplayOutput>|
                    #![trigger other@]
                    is_collected(all, n, Ok::<Vec<ReplayOutput>, ReplayError>(
                        other,
                    )) implies other@ == given@ by {
                    assert forall|k: int| 0 <= k < n implies other@[k] == given@[k] by {
                        assert(crate::table::lookup(all, k as usize) == Some(
                            Ok::<ReplayOutput, ReplayError>(given@[k]),
                        ));
                    }
                    assert(other@ =~= given@);
                }
                assert(is_collected(all, n, Ok::<Vec<ReplayOutput>, ReplayError>(given)));
            }
            match report {
                Some(report) => {
                    assert(is_report(rank_metric, points@, given@, keys@, budget, report));
                    Some(Ok(report))
                },
                None => None,
            }
        },
    }
}

/// A parameter that is not swept keeps its configured value, and one that is takes each of its
/// values in order.
pub proof fn law_unswept_parameters_keep_their_value<T>(values: Seq<T>, base: T)
    ensures
        values.len() == 0 ==> or_base_spec(values, base) == seq![base],
        values.len() > 0 ==> or_base_spec(values, base) == values,
{
}

/// A sweep fails by the failure of the earliest of its points that failed, whichever was done
/// first.
pub proof fn law_earliest_failure_is_told(
    results: Seq<(usize, Result<ReplayOutput, ReplayError>)>,
    points: int,
    e: ReplayError,
    k: int,
)
    requires
        results_ok(results, points),
        results.len() == points,
        points <= usize::MAX,
        is_collected(results, points, Err::<Vec<ReplayOutput>, ReplayError>(e)),
        0 <= k < points,
        crate::table::lookup(results, k as usize) matches Some(Err(_)),
        forall|j: int|
            0 <= j < k ==> (#[trigger] crate::table::lookup(results, j as usize) matches Some(
                Ok(_),
            )),
    ensures
        crate::table::lookup(results, k as usize) == Some(Err::<ReplayOutput, ReplayError>(e)),
{
    let at = choose|i: int| 0 <= i < points && #[trigger] first_error(results, i, e);
    assert(crate::table::lookup(results, at as usize) == Some(
        Err::<ReplayOutput, ReplayError>(e),
    ));
    assert(crate::table::lookup(results, k as usize) is Some);
    if at < k {
        assert(crate::table::lookup(results, at as usize) matches Some(Ok(_)));
    }
    if k < at {
        assert(crate::table::lookup(results, k as usize) matches Some(Ok(_)));
    }
}

/// A report tells what it was ranked by and how many points there were, and has a row for each, of
/// one point's parameters and that same point's output.
pub proof fn law_report_has_each_point_with_its_output(
    rank_metric: SortColumn,
    points: Seq<SweepPoint>,
    outputs: Seq<ReplayOutput>,
    keys: Seq<i64>,
    taker_budget: Amount,
    r: SweepReport,
    j: int,
)
    requires
        is_report(rank_metric, points, outputs, keys, taker_budget, r),
        0 <= j < r.rows@.len(),
    ensures
        r.rank_metric == rank_metric,
        r.points_total == points.len(),
        exists|at: int|
            #![trigger points[at], outputs[at]]
            r.rows@[j].point == points[at] && r.rows@[j].comparison == outputs[at].comparison
                && r.rows@[j].aggregate == SweepAggregate::of_rows(
                outputs[at].comparison.rows@,
                taker_budget,
            ),
{
    let order = choose|order: Seq<usize>|
        #![trigger is_ranking(keys, rank_metric.higher_is_better_spec(), order)]
        is_ranking(keys, rank_metric.higher_is_better_spec(), order) && r.rows@.len() == order.len()
            && forall|j: int|
            0 <= j < order.len() ==> #[trigger] r.rows@[j] == sweep_row(
                points[order[j] as int],
                outputs[order[j] as int],
                taker_budget,
            );
    let at = order[j] as int;
    assert(r.rows@[j] == sweep_row(points[at], outputs[at], taker_budget));
}

} // verus!
