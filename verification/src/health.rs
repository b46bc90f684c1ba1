//! The per-series adverse-selection alarm.
//!
//! A monitor keeps the newest five-second markouts of a series and an alarm with three states. The
//! rolling mean is a floating-point number; the caller takes it over
//! [`AdverseSelectionMonitor::recent`] and hands it in as an order key.

use std::collections::VecDeque;

use vstd::prelude::*;

use crate::markout::newest;
use crate::params::AdverseSelectionParams;
use crate::types::{Mode, Series};

verus! {

/// The per-series adverse-selection alarm state.
#[derive(Clone, Copy, PartialEq, Eq, Structural, Debug)]
pub enum AdverseSelectionState {
    /// Too few passive five-second markouts to tell.
    InsufficientSample,
    /// The rolling mean is at or above the threshold.
    Healthy,
    /// The rolling mean is below the threshold: resting quotes are picked off.
    Alarm,
}

/// A change of a series' alarm state.
#[derive(Clone, Copy, PartialEq, Eq, Structural, Debug)]
pub struct SeriesHealth {
    /// The series.
    pub series: Series,
    /// The session's mode.
    pub mode: Mode,
    /// The state before.
    pub from: AdverseSelectionState,
    /// The state now.
    pub to: AdverseSelectionState,
}

/// The alarm state for a number of markouts seen and a rolling mean.
pub open spec fn alarm_for(params: AdverseSelectionParams, total: nat, mean: int) -> AdverseSelectionState {
    if total < params.min_sample {
        AdverseSelectionState::InsufficientSample
    } else if mean < params.negative_threshold {
        AdverseSelectionState::Alarm
    } else {
        AdverseSelectionState::Healthy
    }
}

/// Watches one series' five-second markouts.
#[derive(Clone, Debug)]
pub struct AdverseSelectionMonitor {
    params: AdverseSelectionParams,
    recent: VecDeque<i64>,
    total: u64,
    state: AdverseSelectionState,
}

/// What a monitor holds.
pub struct MonitorView {
    pub params: AdverseSelectionParams,
    pub recent: Seq<i64>,
    pub total: nat,
    pub state: AdverseSelectionState,
}

impl View for AdverseSelectionMonitor {
    type V = MonitorView;

    closed spec fn view(&self) -> MonitorView {
        MonitorView {
            params: self.params,
            recent: self.recent@,
            total: self.total as nat,
            state: self.state,
        }
    }
}

impl MonitorView {
    /// A monitor that has seen nothing.
    pub open spec fn fresh(params: AdverseSelectionParams) -> MonitorView {
        MonitorView {
            params,
            recent: Seq::empty(),
            total: 0,
            state: AdverseSelectionState::InsufficientSample,
        }
    }

    /// After one more markout, before the alarm state is set.
    pub open spec fn pushed(self, markout: i64) -> MonitorView {
        MonitorView {
            recent: newest(self.recent.push(markout), self.params.window as nat),
            total: self.total + 1,
            ..self
        }
    }

    /// After the alarm state is set by a rolling mean.
    pub open spec fn with_mean(self, mean: int) -> MonitorView {
        MonitorView { state: alarm_for(self.params, self.total, mean), ..self }
    }

    /// The change that a mean makes, if it makes one.
    pub open spec fn change(self, mean: int) -> Option<
        (AdverseSelectionState, AdverseSelectionState),
    > {
        let next = alarm_for(self.params, self.total, mean);
        if next == self.state {
            None
        } else {
            Some((self.state, next))
        }
    }
}

impl AdverseSelectionMonitor {
    /// A monitor that has seen nothing.
    pub fn new(params: AdverseSelectionParams) -> (r: AdverseSelectionMonitor)
        ensures
            r@ == MonitorView::fresh(params),
    {
        let r = AdverseSelectionMonitor {
            params,
            recent: VecDeque::new(),
            total: 0,
            state: AdverseSelectionState::InsufficientSample,
        };
        assert(r@.recent =~= Seq::empty());
        r
    }

    /// Takes in one passive fill's five-second markout, as an order key.
    pub fn push_5s(&mut self, markout: i64)
        requires
            old(self)@.total < u64::MAX,
        ensures
            final(self)@ == old(self)@.pushed(markout),
    {
        let ghost before = self@;
        self.recent.push_back(markout);
        let ghost pushed = self.recent@;
        let cap: u32 = self.params.window;
        while self.recent.len() > cap as usize
            invariant
                cap == self.params.window,
                self.params == before.params,
                self.state == before.state,
                self.total == before.total,
                self.recent@.len() <= pushed.len(),
                self.recent@ == pushed.subrange(
                    pushed.len() - self.recent@.len(),
                    pushed.len() as int,
                ),
                self.recent@.len() >= cap || self.recent@ == pushed,
            decreases self.recent@.len(),
        {
            self.recent.pop_front();
        }
        self.total = self.total + 1;
        assert(self.recent@ =~= newest(pushed, cap as nat));
    }

    /// Sets the alarm state by the rolling mean of the markouts that are kept, as an order key.
    /// Returns the states before and now where they differ: one change for every flip.
    pub fn apply_mean(&mut self, mean: i64) -> (r: Option<
        (AdverseSelectionState, AdverseSelectionState),
    >)
        ensures
            final(self)@ == old(self)@.with_mean(mean as int),
            r == old(self)@.change(mean as int),
    {
        let next = if self.total < self.params.min_sample as u64 {
            AdverseSelectionState::InsufficientSample
        } else if mean < self.params.negative_threshold {
            AdverseSelectionState::Alarm
        } else {
            AdverseSelectionState::Healthy
        };
        let from = self.state;
        if next == from {
            None
        } else {
            self.state = next;
            Some((from, next))
        }
    }

    /// The alarm state.
    pub fn state(&self) -> (r: AdverseSelectionState)
        ensures
            r == self@.state,
    {
        self.state
    }

    /// How many markouts were taken in.
    pub fn sample_count(&self) -> (r: u64)
        ensures
            r == self@.total,
    {
        self.total
    }

    /// The markouts that the rolling mean is taken over, as order keys, oldest first.
    pub fn recent(&self) -> (r: Vec<i64>)
        ensures
            r@ == self@.recent,
    {
        let mut out: Vec<i64> = Vec::new();
        let mut i: usize = 0;
        while i < self.recent.len()
            invariant
                i <= self.recent@.len(),
                out@ == self.recent@.subrange(0, i as int),
            decreases self.recent.len() - i,
        {
            out.push(self.recent[i]);
            i = i + 1;
            assert(out@ =~= self.recent@.subrange(0, i as int));
        }
        assert(out@ =~= self.recent@);
        out
    }
}

/// The alarm state is never set on fewer markouts than the sample that it asks for.
pub proof fn law_no_alarm_before_the_sample(m: MonitorView, mean: int)
    requires
        m.total < m.params.min_sample,
    ensures
        m.with_mean(mean).state == AdverseSelectionState::InsufficientSample,
{
}

/// Once the sample is there, a mean below the threshold is an alarm and one at it or above it is
/// healthy; a change tells the states before and now.
pub proof fn law_alarm_is_a_mean_below_the_threshold(m: MonitorView, mean: int)
    requires
        m.total >= m.params.min_sample,
    ensures
        m.with_mean(mean).state == AdverseSelectionState::Alarm <==> mean
            < m.params.negative_threshold,
        m.with_mean(mean).state == AdverseSelectionState::Healthy <==> mean
            >= m.params.negative_threshold,
        m.change(mean) is Some <==> m.with_mean(mean).state != m.state,
        m.change(mean) matches Some((from, to)) ==> from == m.state && to == m.with_mean(
            mean,
        ).state,
        m.with_mean(mean).recent == m.recent && m.with_mean(mean).total == m.total,
{
}

/// A markout counts once and joins the end of those that are kept, which are the newest, as many as
/// the window holds; it does not by itself set the alarm state.
pub proof fn law_markout_joins_the_newest(m: MonitorView, markout: i64)
    requires
        m.params.window > 0,
    ensures
        ({
            let now = m.pushed(markout);
            let n = if m.recent.len() + 1 > m.params.window {
                m.params.window as nat
            } else {
                m.recent.len() + 1
            };
            &&& now.total == m.total + 1
            &&& now.state == m.state
            &&& now.recent.len() == n
            &&& now.recent.last() == markout
            &&& forall|i: int|
                0 <= i < n - 1 ==> #[trigger] now.recent[i] == m.recent[m.recent.len() + 1 - n + i]
        }),
{
}

/// A change is latched: the same mean again changes nothing.
pub proof fn law_one_change_per_flip(m: MonitorView, mean: int)
    ensures
        m.with_mean(mean).change(mean) is None,
        m.with_mean(mean).with_mean(mean) == m.with_mean(mean),
{
}

} // verus!
