//! The fair-value model's vocabulary: its labels, what it goes by, and the check of a strike
//! against the venue's.

use vstd::prelude::*;
use vstd::string::*;

use crate::calendar;
use crate::feed::FeedsConfig;
use crate::text;
use crate::types::{Asset, Series};

verus! {

/// Which print around the opening is the strike.
#[derive(Clone, Copy, PartialEq, Eq, Structural, Debug)]
pub enum StrikeRule {
    /// The last at or before it.
    LastAtOrBefore,
    /// The first at or after it.
    FirstAtOrAfter,
}

/// How good a strike is.
#[derive(Clone, Copy, PartialEq, Eq, Structural, Debug)]
pub enum StrikeQuality {
    /// There is none.
    Missing,
    /// Its print is far from the opening.
    Distant,
    /// Its print is at the opening.
    Boundary,
}

/// What a price is anchored to.
#[derive(Clone, Copy, PartialEq, Eq, Structural, Debug)]
pub enum AnchorSource {
    /// The Chainlink price.
    Chainlink,
    /// The Binance price, corrected by its basis.
    BinanceCorrected,
}

/// How far the model can be relied on.
#[derive(Clone, Copy, PartialEq, Eq, Structural, Debug)]
pub enum ModelHealth {
    /// Fully.
    Ready,
    /// With care.
    Degraded,
    /// Not at all.
    Unreliable,
}

/// Why.
#[derive(Clone, Copy, PartialEq, Eq, Structural, Debug)]
pub enum ModelHealthReason {
    /// Nothing is wrong.
    Nominal,
    /// It is warming up.
    Warming,
    /// The Chainlink price is stale.
    ChainlinkStale,
    /// There is nothing to anchor to.
    NoAnchor,
    /// The sources are far apart.
    DivergenceHard,
    /// The fast source is gone.
    FastLeadLost,
    /// The sources are somewhat apart.
    DivergenceSoft,
}

/// A change in how far the model can be relied on.
#[derive(Clone, Copy, PartialEq, Eq, Structural, Debug)]
pub struct HealthTransition {
    /// Before.
    pub from: ModelHealth,
    /// After.
    pub to: ModelHealth,
    /// Why.
    pub reason: ModelHealthReason,
    /// When, Unix milliseconds.
    pub at_ms: i64,
}

/// A strike rule in a word.
pub open spec fn rule_text(rule: StrikeRule) -> Seq<char> {
    match rule {
        StrikeRule::LastAtOrBefore => "last_at_or_before"@,
        StrikeRule::FirstAtOrAfter => "first_at_or_after"@,
    }
}

/// A strike rule in a word.
pub fn rule_label(rule: StrikeRule) -> (r: &'static str)
    ensures
        r@ == rule_text(rule),
{
    match rule {
        StrikeRule::LastAtOrBefore => "last_at_or_before",
        StrikeRule::FirstAtOrAfter => "first_at_or_after",
    }
}

/// A strike's quality in a word.
pub open spec fn quality_text(quality: StrikeQuality) -> Seq<char> {
    match quality {
        StrikeQuality::Missing => "missing"@,
        StrikeQuality::Distant => "distant"@,
        StrikeQuality::Boundary => "boundary"@,
    }
}

/// A strike's quality in a word.
pub fn quality_label(quality: StrikeQuality) -> (r: &'static str)
    ensures
        r@ == quality_text(quality),
{
    match quality {
        StrikeQuality::Missing => "missing",
        StrikeQuality::Distant => "distant",
        StrikeQuality::Boundary => "boundary",
    }
}

/// An anchor in a word.
pub open spec fn anchor_text(anchor: Option<AnchorSource>) -> Seq<char> {
    match anchor {
        Some(AnchorSource::Chainlink) => "chainlink"@,
        Some(AnchorSource::BinanceCorrected) => "binance_corrected"@,
        None => "none"@,
    }
}

/// An anchor in a word.
pub fn anchor_label(anchor: Option<AnchorSource>) -> (r: &'static str)
    ensures
        r@ == anchor_text(anchor),
{
    match anchor {
        Some(AnchorSource::Chainlink) => "chainlink",
        Some(AnchorSource::BinanceCorrected) => "binance_corrected",
        None => "none",
    }
}

/// A model health in a word.
pub open spec fn health_text(health: ModelHealth) -> Seq<char> {
    match health {
        ModelHealth::Ready => "ready"@,
        ModelHealth::Degraded => "degraded"@,
        ModelHealth::Unreliable => "unreliable"@,
    }
}

/// A model health in a word.
pub fn health_label(health: ModelHealth) -> (r: &'static str)
    ensures
        r@ == health_text(health),
{
    match health {
        ModelHealth::Ready => "ready",
        ModelHealth::Degraded => "degraded",
        ModelHealth::Unreliable => "unreliable",
    }
}

/// A reason in a word.
pub open spec fn reason_text(reason: ModelHealthReason) -> Seq<char> {
    match reason {
        ModelHealthReason::Nominal => "nominal"@,
        ModelHealthReason::Warming => "warming"@,
        ModelHealthReason::ChainlinkStale => "chainlink_stale"@,
        ModelHealthReason::NoAnchor => "no_anchor"@,
        ModelHealthReason::DivergenceHard => "divergence_hard"@,
        ModelHealthReason::FastLeadLost => "fast_lead_lost"@,
        ModelHealthReason::DivergenceSoft => "divergence_soft"@,
    }
}

/// A reason in a word.
pub fn reason_label(reason: ModelHealthReason) -> (r: &'static str)
    ensures
        r@ == reason_text(reason),
{
    match reason {
        ModelHealthReason::Nominal => "nominal",
        ModelHealthReason::Warming => "warming",
        ModelHealthReason::ChainlinkStale => "chainlink_stale",
        ModelHealthReason::NoAnchor => "no_anchor",
        ModelHealthReason::DivergenceHard => "divergence_hard",
        ModelHealthReason::FastLeadLost => "fast_lead_lost",
        ModelHealthReason::DivergenceSoft => "divergence_soft",
    }
}

/// A change of health on a line.
pub open spec fn transition_text(asset: Asset, t: HealthTransition) -> Seq<char> {
    "MODEL HEALTH "@ + asset.ticker_spec() + " "@ + health_text(t.from) + " -> "@ + health_text(
        t.to,
    ) + " ("@ + reason_text(t.reason) + ")"@
}

/// A change of health on a line.
pub fn health_transition_line(asset: Asset, t: HealthTransition) -> (r: String)
    ensures
        r@ == transition_text(asset, t),
{
    let mut s = "MODEL HEALTH ".to_owned();
    s.append(asset.ticker());
    s.append(" ");
    s.append(health_label(t.from));
    s.append(" -> ");
    s.append(health_label(t.to));
    s.append(" (");
    s.append(reason_label(t.reason));
    s.append(")");
    s
}

/// The configured part of what the basis tracker goes by.
#[derive(Clone, Copy, PartialEq, Eq, Structural, Debug)]
pub struct BasisParams {
    /// How far apart two prices may be to make a pair, milliseconds.
    pub pairing_max_age_ms: i64,
}

/// What the anchor is chosen by.
#[derive(Clone, Copy, PartialEq, Eq, Structural, Debug)]
pub struct FairParams {
    /// When the Chainlink price is stale, milliseconds.
    pub chainlink_stale_ms: i64,
    /// When the fast price is stale, milliseconds.
    pub fast_stale_ms: i64,
}

/// The configured part of what the model's health goes by. How far prices may diverge and how long
/// a state must hold are not configured: the model has its own values for them.
#[derive(Clone, Copy, PartialEq, Eq, Structural, Debug)]
pub struct HealthParams {
    /// When the Chainlink price is stale, milliseconds.
    pub chainlink_stale_ms: i64,
    /// When it is fresh again, milliseconds.
    pub chainlink_fresh_ms: i64,
}

/// The configured part of what the basis tracker goes by.
pub fn basis_params(feeds: &FeedsConfig) -> (r: BasisParams)
    ensures
        r.pairing_max_age_ms == feeds.binance_stale_after_ms,
{
    BasisParams { pairing_max_age_ms: feeds.binance_stale_after_ms }
}

/// What the anchor is chosen by.
pub fn fair_params(feeds: &FeedsConfig) -> (r: FairParams)
    ensures
        r.chainlink_stale_ms == feeds.rtds_stale_after_ms,
        r.fast_stale_ms == feeds.binance_stale_after_ms,
{
    FairParams {
        chainlink_stale_ms: feeds.rtds_stale_after_ms,
        fast_stale_ms: feeds.binance_stale_after_ms,
    }
}

/// Three fifths of a span, rounded toward zero.
pub open spec fn three_fifths(ms: int) -> int {
    if ms >= 0 {
        ms * 3 / 5
    } else {
        -((-ms) * 3 / 5)
    }
}

/// The configured part of what the model's health goes by: fresh again is three fifths of
/// stale, so that however tight the bound is, there is room between the two. The rest is left to
/// the model's own values.
pub fn health_params(feeds: &FeedsConfig) -> (r: HealthParams)
    requires
        i64::MIN <= feeds.rtds_stale_after_ms * 3 <= i64::MAX,
    ensures
        r.chainlink_stale_ms == feeds.rtds_stale_after_ms,
        r.chainlink_fresh_ms == three_fifths(feeds.rtds_stale_after_ms as int),
        feeds.rtds_stale_after_ms > 0 ==> r.chainlink_fresh_ms < r.chainlink_stale_ms,
{
    let stale: i64 = feeds.rtds_stale_after_ms;
    let fresh: i64 = if stale >= 0 {
        stale * 3 / 5
    } else {
        -((-stale) * 3 / 5)
    };
    HealthParams { chainlink_stale_ms: stale, chainlink_fresh_ms: fresh }
}

/// Where the calibration records of a run go.
pub fn calibration_path(series: Series, started_ms: i64) -> (r: String)
    ensures
        r@ == "data/calibration/fair-"@ + series.key_spec() + "-"@ + calendar::file_stamp_spec(
            started_ms as int,
        ) + ".jsonl"@,
{
    text::join5(
        "data/calibration/fair-",
        series.key(),
        "-",
        calendar::file_stamp(started_ms).as_str(),
        ".jsonl",
    )
}

/// Which of our candidates the venue's strike is.
#[derive(Clone, Copy, PartialEq, Eq, Structural, Debug)]
pub enum Matched {
    /// Both.
    Both,
    /// The one before the opening.
    Before,
    /// The one after the opening.
    After,
    /// Neither.
    Neither,
}

/// How our strike stands against the venue's.
#[derive(Clone, Copy, PartialEq, Eq, Structural, Debug)]
pub enum Verdict {
    /// It is the same.
    Exact,
    /// It is another.
    Mismatch,
    /// We had none.
    NoStrike,
    /// The venue never published its own.
    Unavailable,
}

impl Matched {
    /// Which candidate, in a word.
    pub open spec fn text_spec(self) -> Seq<char> {
        match self {
            Matched::Both => "both"@,
            Matched::Before => "before"@,
            Matched::After => "after"@,
            Matched::Neither => "none"@,
        }
    }

    /// Which candidate, in a word.
    pub fn text(&self) -> (r: &'static str)
        ensures
            r@ == self.text_spec(),
    {
        match self {
            Matched::Both => "both",
            Matched::Before => "before",
            Matched::After => "after",
            Matched::Neither => "none",
        }
    }
}

impl Verdict {
    /// The verdict in a word.
    pub open spec fn text_spec(self) -> Seq<char> {
        match self {
            Verdict::Exact => "exact"@,
            Verdict::Mismatch => "mismatch"@,
            Verdict::NoStrike => "no_strike"@,
            Verdict::Unavailable => "unavailable"@,
        }
    }

    /// The verdict in a word.
    pub fn text(&self) -> (r: &'static str)
        ensures
            r@ == self.text_spec(),
    {
        match self {
            Verdict::Exact => "exact",
            Verdict::Mismatch => "mismatch",
            Verdict::NoStrike => "no_strike",
            Verdict::Unavailable => "unavailable",
        }
    }
}

/// How our candidates compare with the strike that the venue published: for each that we have,
/// whether it is the venue's, within the tolerance.
#[derive(Clone, Copy, PartialEq, Eq, Structural, Debug)]
pub struct StrikeMatch {
    /// The one that we chose.
    pub chosen: Option<bool>,
    /// The one before the opening.
    pub before: Option<bool>,
    /// The one after the opening.
    pub after: Option<bool>,
}

/// Which candidate the venue's strike is.
pub open spec fn matched_of(m: Option<StrikeMatch>) -> Matched {
    match m {
        None => Matched::Neither,
        Some(c) => if c.before == Some(true) && c.after == Some(true) {
            Matched::Both
        } else if c.before == Some(true) {
            Matched::Before
        } else if c.after == Some(true) {
            Matched::After
        } else {
            Matched::Neither
        },
    }
}

/// How our strike stands against the venue's.
pub open spec fn verdict_of(m: Option<StrikeMatch>) -> Verdict {
    match m {
        None => Verdict::Unavailable,
        Some(c) => match c.chosen {
            None => Verdict::NoStrike,
            Some(true) => Verdict::Exact,
            Some(false) => Verdict::Mismatch,
        },
    }
}

/// Holds our candidates against the strike that the venue published, where it did.
pub fn reconcile(m: Option<StrikeMatch>) -> (r: (Matched, Verdict))
    ensures
        r.0 == matched_of(m),
        r.1 == verdict_of(m),
{
    match m {
        None => (Matched::Neither, Verdict::Unavailable),
        Some(c) => {
            let before = matches!(c.before, Some(true));
            let after = matches!(c.after, Some(true));
            let matched = if before && after {
                Matched::Both
            } else if before {
                Matched::Before
            } else if after {
                Matched::After
            } else {
                Matched::Neither
            };
            let verdict = match c.chosen {
                None => Verdict::NoStrike,
                Some(true) => Verdict::Exact,
                Some(false) => Verdict::Mismatch,
            };
            (matched, verdict)
        },
    }
}

/// A candidate is named where it is the venue's strike and only there; both are where both are.
pub proof fn law_candidates_that_match_are_named(c: StrikeMatch)
    ensures
        (matched_of(Some(c)) == Matched::Before || matched_of(Some(c)) == Matched::Both) <==> c.before
            == Some(true),
        (matched_of(Some(c)) == Matched::After || matched_of(Some(c)) == Matched::Both) <==> c.after
            == Some(true),
        matched_of(None) == Matched::Neither,
{
}

/// Where the venue published, the verdict is on the strike that we chose and on no other; where it
/// did not, there is none to give.
pub proof fn law_verdict_is_on_the_chosen(m: Option<StrikeMatch>)
    ensures
        verdict_of(m) == Verdict::Unavailable <==> m is None,
        verdict_of(m) == Verdict::NoStrike <==> (m matches Some(c) && c.chosen is None),
        verdict_of(m) == Verdict::Exact <==> (m matches Some(c) && c.chosen == Some(true)),
        verdict_of(m) == Verdict::Mismatch <==> (m matches Some(c) && c.chosen == Some(false)),
{
}

/// A price is fresh again at three fifths of what makes it stale, to the millisecond below, on
/// either side of zero.
pub proof fn law_fresh_is_three_fifths_of_stale(ms: int)
    ensures
        ms >= 0 ==> 5 * three_fifths(ms) <= 3 * ms < 5 * three_fifths(ms) + 5,
        three_fifths(-ms) == -three_fifths(ms),
{
}

/// The venue is asked eight times, unless it answers before, and a strike that came is reported
/// whenever it does.
pub proof fn law_asked_eight_times(n: nat)
    ensures
        poll_action(n, true) == PollAction::Report,
        poll_action(n, false) == PollAction::AskAgain <==> n < 8,
        poll_action(n, false) == PollAction::GiveUp <==> n >= 8,
{
}

/// How often the venue is asked for a strike.
pub const VERIFY_ATTEMPTS: u32 = 8;

/// What to do after an answer about a strike.
#[derive(Clone, Copy, PartialEq, Eq, Structural, Debug)]
pub enum PollAction {
    /// Report what came.
    Report,
    /// Wait, then ask again.
    AskAgain,
    /// Wait, then report that nothing came.
    GiveUp,
}

/// Asking the venue for a strike.
#[derive(Clone, Debug)]
pub struct StrikePoll {
    asked: u32,
}

impl View for StrikePoll {
    type V = nat;

    /// How many answers came.
    closed spec fn view(&self) -> nat {
        self.asked as nat
    }
}

/// What to do after the `n`th answer.
pub open spec fn poll_action(n: nat, published: bool) -> PollAction {
    if published {
        PollAction::Report
    } else if n < VERIFY_ATTEMPTS {
        PollAction::AskAgain
    } else {
        PollAction::GiveUp
    }
}

impl StrikePoll {
    /// Before the first answer.
    pub fn new() -> (r: StrikePoll)
        ensures
            r@ == 0,
    {
        StrikePoll { asked: 0 }
    }

    /// What to do after an answer, which may have failed or hold no strike yet.
    pub fn after(&mut self, published: bool) -> (r: PollAction)
        requires
            old(self)@ < VERIFY_ATTEMPTS,
        ensures
            final(self)@ == old(self)@ + 1,
            r == poll_action(final(self)@, published),
            r == PollAction::AskAgain ==> final(self)@ < VERIFY_ATTEMPTS,
    {
        self.asked = self.asked + 1;
        if published {
            PollAction::Report
        } else if self.asked < VERIFY_ATTEMPTS {
            PollAction::AskAgain
        } else {
            PollAction::GiveUp
        }
    }
}

/// A strike rule is known by its word.
pub proof fn law_rule_is_known_by_its_word(rule: StrikeRule)
    ensures
        rule_text(rule) == "last_at_or_before"@ <==> rule is LastAtOrBefore,
        rule_text(rule) == "first_at_or_after"@ <==> rule is FirstAtOrAfter,
{
    reveal_strlit("last_at_or_before");
    reveal_strlit("first_at_or_after");
    assert("last_at_or_before"@[0] != "first_at_or_after"@[0]);
}

/// A strike's quality is known by its word.
pub proof fn law_quality_is_known_by_its_word(quality: StrikeQuality)
    ensures
        quality_text(quality) == "missing"@ <==> quality is Missing,
        quality_text(quality) == "distant"@ <==> quality is Distant,
        quality_text(quality) == "boundary"@ <==> quality is Boundary,
{
    reveal_strlit("missing");
    reveal_strlit("distant");
    reveal_strlit("boundary");
    assert("missing"@[0] != "distant"@[0]);
    assert("missing"@.len() != "boundary"@.len());
    assert("distant"@.len() != "boundary"@.len());
}

/// An anchor, and that there is none, is known by its word.
pub proof fn law_anchor_is_known_by_its_word(anchor: Option<AnchorSource>)
    ensures
        anchor_text(anchor) == "chainlink"@ <==> anchor == Some(AnchorSource::Chainlink),
        anchor_text(anchor) == "binance_corrected"@ <==> anchor == Some(AnchorSource::BinanceCorrected),
        anchor_text(anchor) == "none"@ <==> anchor is None,
{
    reveal_strlit("chainlink");
    reveal_strlit("binance_corrected");
    reveal_strlit("none");
    assert("chainlink"@.len() != "binance_corrected"@.len());
    assert("chainlink"@.len() != "none"@.len());
    assert("binance_corrected"@.len() != "none"@.len());
}

/// A model health is known by its word.
pub proof fn law_health_is_known_by_its_word(health: ModelHealth)
    ensures
        health_text(health) == "ready"@ <==> health is Ready,
        health_text(health) == "degraded"@ <==> health is Degraded,
        health_text(health) == "unreliable"@ <==> health is Unreliable,
{
    reveal_strlit("ready");
    reveal_strlit("degraded");
    reveal_strlit("unreliable");
    assert("ready"@.len() != "degraded"@.len());
    assert("ready"@.len() != "unreliable"@.len());
    assert("degraded"@.len() != "unreliable"@.len());
}

/// A reason is known by its word.
pub proof fn law_reason_is_known_by_its_word(reason: ModelHealthReason)
    ensures
        reason_text(reason) == "nominal"@ <==> reason is Nominal,
        reason_text(reason) == "warming"@ <==> reason is Warming,
        reason_text(reason) == "chainlink_stale"@ <==> reason is ChainlinkStale,
        reason_text(reason) == "no_anchor"@ <==> reason is NoAnchor,
        reason_text(reason) == "divergence_hard"@ <==> reason is DivergenceHard,
        reason_text(reason) == "fast_lead_lost"@ <==> reason is FastLeadLost,
        reason_text(reason) == "divergence_soft"@ <==> reason is DivergenceSoft,
{
    reveal_strlit("nominal");
    reveal_strlit("warming");
    reveal_strlit("chainlink_stale");
    reveal_strlit("no_anchor");
    reveal_strlit("divergence_hard");
    reveal_strlit("fast_lead_lost");
    reveal_strlit("divergence_soft");
    assert("nominal"@[0] != "warming"@[0]);
    assert("nominal"@.len() != "chainlink_stale"@.len());
    assert("nominal"@.len() != "no_anchor"@.len());
    assert("nominal"@.len() != "divergence_hard"@.len());
    assert("nominal"@.len() != "fast_lead_lost"@.len());
    assert("nominal"@.len() != "divergence_soft"@.len());
    assert("warming"@.len() != "chainlink_stale"@.len());
    assert("warming"@.len() != "no_anchor"@.len());
    assert("warming"@.len() != "divergence_hard"@.len());
    assert("warming"@.len() != "fast_lead_lost"@.len());
    assert("warming"@.len() != "divergence_soft"@.len());
    assert("chainlink_stale"@.len() != "no_anchor"@.len());
    assert("chainlink_stale"@[0] != "divergence_hard"@[0]);
    assert("chainlink_stale"@.len() != "fast_lead_lost"@.len());
    assert("chainlink_stale"@[0] != "divergence_soft"@[0]);
    assert("no_anchor"@.len() != "divergence_hard"@.len());
    assert("no_anchor"@.len() != "fast_lead_lost"@.len());
    assert("no_anchor"@.len() != "divergence_soft"@.len());
    assert("divergence_hard"@.len() != "fast_lead_lost"@.len());
    assert("divergence_hard"@[11] != "divergence_soft"@[11]);
    assert("fast_lead_lost"@.len() != "divergence_soft"@.len());
}

/// Which candidate matched is known by its word.
pub proof fn law_match_is_known_by_its_word(matched: Matched)
    ensures
        matched.text_spec() == "both"@ <==> matched is Both,
        matched.text_spec() == "before"@ <==> matched is Before,
        matched.text_spec() == "after"@ <==> matched is After,
        matched.text_spec() == "none"@ <==> matched is Neither,
{
    reveal_strlit("both");
    reveal_strlit("before");
    reveal_strlit("after");
    reveal_strlit("none");
    assert("both"@.len() != "before"@.len());
    assert("both"@.len() != "after"@.len());
    assert("both"@[0] != "none"@[0]);
    assert("before"@.len() != "after"@.len());
    assert("before"@.len() != "none"@.len());
    assert("after"@.len() != "none"@.len());
}

/// A verdict is known by its word.
pub proof fn law_verdict_is_known_by_its_word(verdict: Verdict)
    ensures
        verdict.text_spec() == "exact"@ <==> verdict is Exact,
        verdict.text_spec() == "mismatch"@ <==> verdict is Mismatch,
        verdict.text_spec() == "no_strike"@ <==> verdict is NoStrike,
        verdict.text_spec() == "unavailable"@ <==> verdict is Unavailable,
{
    reveal_strlit("exact");
    reveal_strlit("mismatch");
    reveal_strlit("no_strike");
    reveal_strlit("unavailable");
    assert("exact"@.len() != "mismatch"@.len());
    assert("exact"@.len() != "no_strike"@.len());
    assert("exact"@.len() != "unavailable"@.len());
    assert("mismatch"@.len() != "no_strike"@.len());
    assert("mismatch"@.len() != "unavailable"@.len());
    assert("no_strike"@.len() != "unavailable"@.len());
}

} // verus!
