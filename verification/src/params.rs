//! Analytics tuning and its validation.

use vstd::prelude::*;

use crate::decimal::{Amount, Figure};
use crate::text;

verus! {

/// Why an [`AnalyticsParams`] was rejected.
#[derive(Clone, Copy, Debug, PartialEq, Eq)]
pub enum ParamsError {
    /// A count that must be positive was zero.
    NotPositive(&'static str),
    /// A value that must not be negative was.
    Negative(&'static str),
    /// A rate was outside `[0, 1]`.
    RateOutOfRange {
        /// Which one.
        field: &'static str,
        /// Its value.
        value: Figure,
    },
    /// A threshold was not finite.
    NotFinite(&'static str),
}

impl ParamsError {
    /// The error in words.
    pub open spec fn text_spec(self) -> Seq<char> {
        match self {
            ParamsError::NotPositive(field) => field@ + " must be > 0"@,
            ParamsError::Negative(field) => field@ + " must be >= 0"@,
            ParamsError::RateOutOfRange { field, value } => field@ + " must be in [0, 1], got "@
                + value.text_spec(),
            ParamsError::NotFinite(field) => field@ + " must be finite"@,
        }
    }

    /// The error in words.
    pub fn text(&self) -> (r: String)
        ensures
            r@ == self.text_spec(),
    {
        match self {
            ParamsError::NotPositive(field) => text::join2(field, " must be > 0"),
            ParamsError::Negative(field) => text::join2(field, " must be >= 0"),
            ParamsError::RateOutOfRange { field, value } => text::join3(
                field,
                " must be in [0, 1], got ",
                value.text().as_str(),
            ),
            ParamsError::NotFinite(field) => text::join2(field, " must be finite"),
        }
    }
}

/// Tuning of the adverse-selection alarm.
#[derive(Clone, Copy, PartialEq, Eq, Structural, Debug)]
pub struct AdverseSelectionParams {
    /// Five-second markouts that a series needs before its alarm state is set.
    pub min_sample: u32,
    /// The rolling mean strictly below which the series is in alarm, as an order key.
    pub negative_threshold: i64,
    /// How many of the newest markouts the rolling mean is taken over.
    pub window: u32,
}

impl Default for AdverseSelectionParams {
    fn default() -> (r: AdverseSelectionParams)
        ensures
            r == (AdverseSelectionParams { min_sample: 50, negative_threshold: 0, window: 200 }),
    {
        AdverseSelectionParams { min_sample: 50, negative_threshold: 0, window: 200 }
    }
}

/// Analytics tuning.
#[derive(Clone, Copy, PartialEq, Eq, Structural, Debug)]
pub struct AnalyticsParams {
    /// The adverse-selection alarm.
    pub adverse: AdverseSelectionParams,
    /// Windows that a series must have traded before its row carries no warning.
    pub min_sample_windows: u32,
    /// The cap on the model readings that a window keeps.
    pub snapshot_ring_max: usize,
    /// The fee rate for a window that was never announced.
    pub default_fee_rate: Figure,
    /// The rebate share for a window that was never announced.
    pub default_rebate_rate: Figure,
    /// The taker budget of a window; zero for none.
    pub taker_budget_per_window: Amount,
}

impl Default for AnalyticsParams {
    fn default() -> (r: AnalyticsParams)
        ensures
            r.adverse == (AdverseSelectionParams {
                min_sample: 50,
                negative_threshold: 0,
                window: 200,
            }),
            r.min_sample_windows == 30,
            r.snapshot_ring_max == 65_536,
            r.default_fee_rate@ == (7int, 2int),
            r.default_rebate_rate@ == (20int, 2int),
            r.taker_budget_per_window.value() == 10 * crate::decimal::UNIT,
    {
        AnalyticsParams {
            adverse: AdverseSelectionParams::default(),
            min_sample_windows: 30,
            snapshot_ring_max: 65_536,
            default_fee_rate: Figure::new(7, 2),
            default_rebate_rate: Figure::new(20, 2),
            taker_budget_per_window: Amount::from_i64(10),
        }
    }
}

/// Whether a rate is outside `[0, 1]`.
pub open spec fn rate_out_of_range(rate: Figure) -> bool {
    rate.value() < 0 || rate.value() > crate::decimal::UNIT
}

impl AnalyticsParams {
    /// The first complaint about the tuning, if there is one.
    pub open spec fn validate_spec(self) -> Result<(), ParamsError> {
        if self.adverse.min_sample == 0 {
            Err(ParamsError::NotPositive("adverse.min_sample"))
        } else if self.adverse.window == 0 {
            Err(ParamsError::NotPositive("adverse.window"))
        } else if !crate::floatkey::finite_key(self.adverse.negative_threshold as int) {
            Err(ParamsError::NotFinite("adverse.negative_threshold"))
        } else if self.min_sample_windows == 0 {
            Err(ParamsError::NotPositive("min_sample_windows"))
        } else if self.snapshot_ring_max == 0 {
            Err(ParamsError::NotPositive("snapshot_ring_max"))
        } else if self.taker_budget_per_window.value() < 0 {
            Err(ParamsError::Negative("taker_budget_per_window"))
        } else if rate_out_of_range(self.default_fee_rate) {
            Err(
                ParamsError::RateOutOfRange {
                    field: "default_fee_rate",
                    value: self.default_fee_rate,
                },
            )
        } else if rate_out_of_range(self.default_rebate_rate) {
            Err(
                ParamsError::RateOutOfRange {
                    field: "default_rebate_rate",
                    value: self.default_rebate_rate,
                },
            )
        } else {
            Ok(())
        }
    }

    /// Checks the tuning.
    pub fn validate(&self) -> (r: Result<(), ParamsError>)
        ensures
            r == self.validate_spec(),
    {
        if self.adverse.min_sample == 0 {
            return Err(ParamsError::NotPositive("adverse.min_sample"));
        }
        if self.adverse.window == 0 {
            return Err(ParamsError::NotPositive("adverse.window"));
        }
        if !crate::floatkey::is_finite_key(self.adverse.negative_threshold) {
            return Err(ParamsError::NotFinite("adverse.negative_threshold"));
        }
        if self.min_sample_windows == 0 {
            return Err(ParamsError::NotPositive("min_sample_windows"));
        }
        if self.snapshot_ring_max == 0 {
            return Err(ParamsError::NotPositive("snapshot_ring_max"));
        }
        if self.taker_budget_per_window.is_negative() {
            return Err(ParamsError::Negative("taker_budget_per_window"));
        }
        if out_of_range(&self.default_fee_rate) {
            return Err(
                ParamsError::RateOutOfRange {
                    field: "default_fee_rate",
                    value: self.default_fee_rate,
                },
            );
        }
        if out_of_range(&self.default_rebate_rate) {
            return Err(
                ParamsError::RateOutOfRange {
                    field: "default_rebate_rate",
                    value: self.default_rebate_rate,
                },
            );
        }
        Ok(())
    }
}

/// Whether a rate is outside `[0, 1]`.
fn out_of_range(rate: &Figure) -> (r: bool)
    ensures
        r == rate_out_of_range(*rate),
{
    let a = rate.amount();
    a.is_negative() || Amount::from_i64(1).less(&a)
}

/// Parameters are sound where every count is positive, the threshold is finite, the budget is not
/// negative and both rates are from nought to one, and only there.
pub proof fn law_sound_params_are_accepted(p: AnalyticsParams)
    ensures
        p.validate_spec() is Ok <==> {
            &&& p.adverse.min_sample > 0
            &&& p.adverse.window > 0
            &&& crate::floatkey::finite_key(p.adverse.negative_threshold as int)
            &&& p.min_sample_windows > 0
            &&& p.snapshot_ring_max > 0
            &&& p.taker_budget_per_window.value() >= 0
            &&& 0 <= p.default_fee_rate.value() <= crate::decimal::UNIT
            &&& 0 <= p.default_rebate_rate.value() <= crate::decimal::UNIT
        },
{
}

/// What is refused, and why: a count for being nought, the threshold for not being finite, the
/// budget for being negative, and a rate, with its value, for being out of range.
pub proof fn law_why_params_are_refused(p: AnalyticsParams)
    ensures
        p.validate_spec() matches Err(e) ==> {
            &&& e is NotPositive ==> p.adverse.min_sample == 0 || p.adverse.window == 0
                || p.min_sample_windows == 0 || p.snapshot_ring_max == 0
            &&& e is NotFinite ==> !crate::floatkey::finite_key(p.adverse.negative_threshold as int)
            &&& e is Negative ==> p.taker_budget_per_window.value() < 0
            &&& e matches ParamsError::RateOutOfRange { value, .. } ==> (value.value() < 0
                || value.value() > crate::decimal::UNIT) && (value == p.default_fee_rate || value
                == p.default_rebate_rate)
        },
        p.adverse.min_sample == 0 ==> p.validate_spec() == Err::<(), ParamsError>(
            ParamsError::NotPositive("adverse.min_sample"),
        ),
{
}

} // verus!
