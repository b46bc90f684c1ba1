//! The record of what the model taker decided.

use vstd::prelude::*;

use crate::control::text_of;
use crate::decimal::Amount;
use crate::types::{Outcome, Series};

verus! {

/// What the model predicted.
#[derive(Clone, Copy, PartialEq, Eq, Structural, Debug)]
pub struct ModelPrediction {
    /// The series.
    pub series: Series,
    /// The window's opening, Unix milliseconds.
    pub window_open_ms: i64,
    /// When, Unix milliseconds.
    pub ts_ms: i64,
    /// The Up probability, as an order key.
    pub p_up: i64,
    /// How many of the inputs were finite.
    pub finite_count: u32,
    /// Whether the model was due to be fitted anew.
    pub model_stale: bool,
}

/// What the taker made of it.
#[derive(Clone, Debug)]
pub enum ModelTakeOutcome {
    /// It placed an order.
    Fired {
        /// The outcome bought.
        outcome: Outcome,
        /// The shares expected.
        shares: Amount,
        /// The money spent.
        notional: Amount,
        /// The worst price accepted.
        worst_price: Amount,
    },
    /// It placed none, for a reason.
    Suppressed(String),
}

/// The record of a decision.
#[derive(Clone, Debug)]
pub struct ModelTakerDecision {
    /// When, Unix milliseconds.
    pub ts: i64,
    /// The series' key.
    pub series: String,
    /// The window's opening, Unix milliseconds.
    pub window_open_ms: i64,
    /// The Up probability, as an order key.
    pub p_up: i64,
    /// How many of the inputs were finite.
    pub finite_count: u32,
    /// Whether the model was due to be fitted anew.
    pub model_stale: bool,
    /// Whether an order was placed.
    pub fired: bool,
    /// `fired`, or the reason why not.
    pub reason: String,
    /// The outcome bought, where one was.
    pub outcome: Option<String>,
    /// The shares expected, where an order was placed.
    pub shares: Option<String>,
    /// The money spent, where an order was placed.
    pub notional: Option<String>,
    /// The worst price accepted, where an order was placed.
    pub worst_price: Option<String>,
}

impl ModelTakerDecision {
    /// Whether a record is that of a prediction and what was made of it.
    pub open spec fn records(self, pred: ModelPrediction, outcome: ModelTakeOutcome) -> bool {
        &&& self.ts == pred.ts_ms
        &&& self.series@ == pred.series.key_spec()
        &&& self.window_open_ms == pred.window_open_ms
        &&& self.p_up == pred.p_up
        &&& self.finite_count == pred.finite_count
        &&& self.model_stale == pred.model_stale
        &&& match outcome {
            ModelTakeOutcome::Fired { outcome, shares, notional, worst_price } => {
                &&& self.fired
                &&& self.reason@ == "fired"@
                &&& text_of(self.outcome) == Some(outcome.text_spec())
                &&& text_of(self.shares) == Some(shares.text_spec())
                &&& text_of(self.notional) == Some(notional.text_spec())
                &&& text_of(self.worst_price) == Some(worst_price.text_spec())
            },
            ModelTakeOutcome::Suppressed(reason) => {
                &&& !self.fired
                &&& self.reason@ == reason@
                &&& self.outcome is None
                &&& self.shares is None
                &&& self.notional is None
                &&& self.worst_price is None
            },
        }
    }

    /// The record of a prediction and what was made of it.
    pub fn build(pred: &ModelPrediction, outcome: &ModelTakeOutcome) -> (r: ModelTakerDecision)
        ensures
            r.records(*pred, *outcome),
    {
        let (fired, reason, side, shares, notional, worst_price) = match outcome {
            ModelTakeOutcome::Fired { outcome, shares, notional, worst_price } => (
                true,
                "fired".to_owned(),
                Some(outcome.text().to_owned()),
                Some(shares.text()),
                Some(notional.text()),
                Some(worst_price.text()),
            ),
            ModelTakeOutcome::Suppressed(reason) => (
                false,
                reason.clone(),
                None,
                None,
                None,
                None,
            ),
        };
        ModelTakerDecision {
            ts: pred.ts_ms,
            series: pred.series.key().to_owned(),
            window_open_ms: pred.window_open_ms,
            p_up: pred.p_up,
            finite_count: pred.finite_count,
            model_stale: pred.model_stale,
            fired,
            reason,
            outcome: side,
            shares,
            notional,
            worst_price,
        }
    }
}

/// A record says that an order was placed exactly where one was, and then alone what was bought,
/// for how much and at what worst price; each figure stands in its own place.
pub proof fn law_record_tells_what_was_placed(
    r: ModelTakerDecision,
    pred: ModelPrediction,
    made: ModelTakeOutcome,
)
    requires
        r.records(pred, made),
    ensures
        r.ts == pred.ts_ms,
        r.window_open_ms == pred.window_open_ms,
        r.p_up == pred.p_up,
        r.finite_count == pred.finite_count,
        r.model_stale == pred.model_stale,
        r.fired <==> made is Fired,
        made is Fired <==> r.outcome is Some,
        made is Fired <==> r.shares is Some,
        made is Fired <==> r.notional is Some,
        made is Fired <==> r.worst_price is Some,
        made is Fired ==> r.outcome->0@ == made->Fired_outcome.text_spec() && r.shares->0@
            == made->Fired_shares.text_spec() && r.notional->0@ == made->Fired_notional.text_spec()
            && r.worst_price->0@ == made->Fired_worst_price.text_spec(),
        made is Suppressed ==> r.reason@ == made->Suppressed_0@,
{
}

} // verus!
