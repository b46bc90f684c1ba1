//! The control plane: every operator command is decided here.
//!
//! A command is checked against the runtime state, changes it or not, and leaves an audit record
//! either way. What the venue is to do, and what goes to the bus, is handed back to the caller.

use vstd::prelude::*;

use crate::decimal::{Amount, Figure};
use crate::text;
use crate::types::Series;

verus! {

/// How long a begun arming can be confirmed, milliseconds.
pub const PENDING_TTL_MS: i64 = 60_000;

/// What the venue is to do.
#[derive(Clone, Copy, PartialEq, Eq, Structural, Debug)]
pub enum VenueAction {
    /// Cancel every open order.
    CancelAll,
    /// Set the paper capital.
    SetCapital(Amount),
    /// Change the paper capital by an amount.
    AdjustCapital(Figure),
}

/// Where a command came from.
#[derive(Clone, Copy, PartialEq, Eq, Structural, Debug)]
pub enum CommandOrigin {
    /// The dashboard.
    Dashboard,
    /// The command line.
    Cli,
}

/// A circuit breaker.
#[derive(Clone, Copy, PartialEq, Eq, Structural, Debug)]
pub enum BreakerKind {
    /// The operator's.
    Manual,
    /// The daily loss stop.
    DailyStop,
}

/// A command.
#[derive(Clone, Debug)]
pub enum DashboardCommand {
    /// Halt trading and cancel every order.
    Kill,
    /// Resume trading.
    Reset,
    /// Clear the daily stop.
    ResetDailyStop,
    /// Set the paper capital.
    SetPaperCapital(Amount),
    /// Change the paper capital by an amount.
    AdjustPaperCapital(Figure),
    /// Enable a series, by its key.
    EnableSeries(String),
    /// Disable a series, by its key.
    DisableSeries(String),
    /// Set a parameter, for one series or for all.
    SetParam {
        /// The series' key.
        series: Option<String>,
        /// The parameter.
        key: String,
        /// Its value.
        value: String,
    },
    /// Begin arming live trading.
    ArmLiveBegin,
    /// Confirm it.
    ArmLiveConfirm {
        /// The confirmation phrase.
        phrase: String,
    },
    /// Disarm live trading.
    Disarm,
}

/// An optional text as a sequence.
pub open spec fn text_of(t: Option<String>) -> Option<Seq<char>> {
    match t {
        Some(s) => Some(s@),
        None => None,
    }
}

/// How a command was answered.
#[derive(Clone, Copy, PartialEq, Eq, Structural, Debug)]
pub enum OutcomeKind {
    /// Done.
    Accepted,
    /// Wrong in itself.
    Rejected,
    /// Not possible as things stand.
    Conflict,
}

/// What goes to the bus about a command, besides its audit.
#[derive(Clone, Copy, PartialEq, Eq, Structural, Debug)]
pub enum ControlEvent {
    /// Trading was halted.
    Kill,
    /// Trading was resumed.
    Reset,
    /// The daily stop was cleared.
    DailyStopReset,
    /// A series was enabled.
    SeriesEnabled(Series),
    /// A series was disabled.
    SeriesDisabled(Series),
    /// A breaker tripped.
    BreakerTripped(BreakerKind),
    /// A breaker was cleared.
    BreakerCleared(BreakerKind),
    /// Every order is being cancelled.
    CancelAllIssued(BreakerKind),
}

/// The record that every command leaves.
#[derive(Clone, Debug)]
pub struct ControlAudit {
    /// When, Unix milliseconds.
    pub ts_ms: i64,
    /// Where the command came from.
    pub origin: CommandOrigin,
    /// The kind of command.
    pub kind: String,
    /// What it did, in a line.
    pub detail: String,
    /// Whether it was accepted.
    pub accepted: bool,
    /// Why it was not.
    pub error: Option<String>,
}

/// The state of the multi-step arming of live trading.
#[derive(Clone, Copy, PartialEq, Eq, Structural, Debug)]
pub enum ArmingMachine {
    /// Not armed.
    Disarmed,
    /// Begun, and to be confirmed by a time.
    PendingConfirm {
        /// The last moment, Unix milliseconds.
        deadline_ms: i64,
    },
    /// Armed for this session.
    Armed,
}

/// A parameter value that was set while running, for one series or for all.
#[derive(Clone, Debug)]
pub struct ParamOverride {
    /// The series, or none for all.
    pub scope: Option<Series>,
    /// The parameter.
    pub key: String,
    /// Its value.
    pub value: String,
}

/// Overrides by scope and parameter.
pub type Overrides = Seq<((Option<Series>, Seq<char>), Seq<char>)>;

/// The place of a scope: all series first, then by series.
pub open spec fn scope_rank(scope: Option<Series>) -> int {
    match scope {
        None => 0,
        Some(s) => s.rank_spec() + 1,
    }
}

/// Whether an override stands before another: by scope, then by parameter.
pub open spec fn override_before(a: (Option<Series>, Seq<char>), b: (Option<Series>, Seq<char>)) -> bool {
    scope_rank(a.0) < scope_rank(b.0) || (a.0 == b.0 && text::text_before(a.1, b.1))
}

/// Whether overrides stand in order, none twice.
pub open spec fn in_order(s: Overrides) -> bool {
    forall|i: int, j: int|
        0 <= i < j < s.len() ==> override_before((#[trigger] s[i]).0, (#[trigger] s[j]).0)
}

/// Overrides with a value set, in its place.
pub open spec fn with_override(s: Overrides, k: (Option<Series>, Seq<char>), v: Seq<char>) -> Overrides
    decreases s.len(),
{
    if s.len() == 0 {
        seq![(k, v)]
    } else if override_before(k, s.last().0) {
        with_override(s.drop_last(), k, v).push(s.last())
    } else if s.last().0 == k {
        s.drop_last().push((k, v))
    } else {
        s.push((k, v))
    }
}

proof fn lemma_scope_rank(a: Option<Series>, b: Option<Series>)
    ensures
        scope_rank(a) == scope_rank(b) <==> a == b,
{
    match (a, b) {
        (Some(x), Some(y)) => {
            Series::lemma_rank_unique(x, y);
        },
        _ => {},
    }
}

proof fn lemma_override_order(a: (Option<Series>, Seq<char>), b: (Option<Series>, Seq<char>))
    ensures
        a == b <==> !override_before(a, b) && !override_before(b, a),
        !(override_before(a, b) && override_before(b, a)),
{
    lemma_scope_rank(a.0, b.0);
    text::lemma_text_order(a.1, b.1);
}

proof fn lemma_override_carries(
    a: (Option<Series>, Seq<char>),
    b: (Option<Series>, Seq<char>),
    c: (Option<Series>, Seq<char>),
)
    requires
        override_before(a, b),
        override_before(b, c),
    ensures
        override_before(a, c),
{
    if a.0 == b.0 && b.0 == c.0 {
        text::lemma_text_order_carries(a.1, b.1, c.1);
    }
}

/// Setting a value keeps the order, and is found under its scope and parameter; every other
/// value stays.
proof fn lemma_with_override(s: Overrides, k: (Option<Series>, Seq<char>), v: Seq<char>)
    requires
        in_order(s),
    ensures
        in_order(with_override(s, k, v)),
        forall|e: ((Option<Series>, Seq<char>), Seq<char>)| #[trigger]
            with_override(s, k, v).contains(e) <==> (e == (k, v) || (e.0 != k && s.contains(e))),
    decreases s.len(),
{
    let t = with_override(s, k, v);
    if s.len() == 0 {
        assert(t[0] == (k, v));
    } else {
        let last = s.last();
        let rest = s.drop_last();
        assert(s =~= rest.push(last));
        lemma_override_order(k, last.0);
        assert forall|i: int, j: int| 0 <= i < j < rest.len() implies override_before(
            (#[trigger] rest[i]).0,
            (#[trigger] rest[j]).0,
        ) by {
            assert(rest[i] == s[i] && rest[j] == s[j]);
        }
        assert forall|i: int| 0 <= i < rest.len() implies override_before(
            (#[trigger] rest[i]).0,
            last.0,
        ) by {
            assert(rest[i] == s[i]);
            assert(s[s.len() - 1] == last);
        }
        if override_before(k, last.0) {
            lemma_with_override(rest, k, v);
            let u = with_override(rest, k, v);
            assert forall|i: int, j: int| 0 <= i < j < t.len() implies override_before(
                (#[trigger] t[i]).0,
                (#[trigger] t[j]).0,
            ) by {
                assert(t[i] == u[i]);
                if j < u.len() {
                    assert(t[j] == u[j]);
                } else {
                    assert(u.contains(u[i]));
                    if u[i] != (k, v) {
                        let m = choose|m: int| 0 <= m < rest.len() && rest[m] == u[i];
                        assert(override_before(rest[m].0, last.0));
                    }
                }
            }
            assert forall|e: ((Option<Series>, Seq<char>), Seq<char>)| #[trigger]
                t.contains(e) <==> (e == (k, v) || (e.0 != k && s.contains(e))) by {
                assert(u.contains(e) <==> (e == (k, v) || (e.0 != k && rest.contains(e))));
                lemma_push_contains(u, last, e);
                lemma_push_contains(rest, last, e);
            }
        } else if last.0 == k {
            assert forall|e: ((Option<Series>, Seq<char>), Seq<char>)| #[trigger]
                t.contains(e) <==> (e == (k, v) || (e.0 != k && s.contains(e))) by {
                lemma_push_contains(rest, (k, v), e);
                lemma_push_contains(rest, last, e);
                if rest.contains(e) {
                    let m = choose|m: int| 0 <= m < rest.len() && rest[m] == e;
                    assert(override_before(rest[m].0, last.0));
                    lemma_override_order(e.0, k);
                }
            }
        } else {
            assert forall|i: int| 0 <= i < s.len() implies override_before((#[trigger] s[i]).0, k) by {
                if i < rest.len() {
                    assert(s[i] == rest[i]);
                    lemma_override_carries(rest[i].0, last.0, k);
                }
            }
            assert forall|e: ((Option<Series>, Seq<char>), Seq<char>)| #[trigger]
                t.contains(e) <==> (e == (k, v) || (e.0 != k && s.contains(e))) by {
                lemma_push_contains(s, (k, v), e);
                if s.contains(e) {
                    let m = choose|m: int| 0 <= m < s.len() && s[m] == e;
                    assert(override_before(s[m].0, k));
                    lemma_override_order(e.0, k);
                }
            }
        }
    }
}

proof fn lemma_push_contains<A>(s: Seq<A>, x: A, e: A)
    ensures
        s.push(x).contains(e) <==> s.contains(e) || x == e,
{
    let t = s.push(x);
    if s.contains(e) {
        let i = choose|i: int| 0 <= i < s.len() && s[i] == e;
        assert(t[i] == e);
    }
    if x == e {
        assert(t[s.len() as int] == e);
    }
    if t.contains(e) {
        let i = choose|i: int| 0 <= i < t.len() && t[i] == e;
        if i < s.len() {
            assert(s[i] == e);
        }
    }
}

/// The state that a command can change, and that trading goes by.
#[derive(Clone, Debug)]
pub struct RuntimeControlState {
    halted: bool,
    enabled: Vec<bool>,
    overrides: Vec<ParamOverride>,
    session_armed: bool,
}

/// An override as its scope, parameter and value.
pub open spec fn override_entry(o: ParamOverride) -> ((Option<Series>, Seq<char>), Seq<char>) {
    ((o.scope, o.key@), o.value@)
}

/// Overrides as their scopes, parameters and values.
pub open spec fn override_entries(o: Seq<ParamOverride>) -> Overrides {
    o.map_values(|x: ParamOverride| override_entry(x))
}

/// What a [`RuntimeControlState`] holds. `enabled` says for each series, by its place among the
/// six, whether it is enabled.
pub struct RuntimeView {
    pub halted: bool,
    pub enabled: Seq<bool>,
    pub overrides: Overrides,
    pub session_armed: bool,
}

impl View for RuntimeControlState {
    type V = RuntimeView;

    closed spec fn view(&self) -> RuntimeView {
        RuntimeView {
            halted: self.halted,
            enabled: self.enabled@,
            overrides: override_entries(self.overrides@),
            session_armed: self.session_armed,
        }
    }
}

impl RuntimeView {
    /// Whether a series is enabled.
    pub open spec fn enables(self, series: Series) -> bool {
        self.enabled[series.rank_spec()]
    }

    /// Whether there is a flag for each series, and the overrides stand in order.
    pub open spec fn wf(self) -> bool {
        self.enabled.len() == 6 && in_order(self.overrides)
    }

    /// The value of a parameter for a series: its own, or else that for all.
    pub open spec fn override_for(self, series: Series, key: Seq<char>) -> Option<Seq<char>> {
        match crate::table::lookup(self.overrides, (Some(series), key)) {
            Some(v) => Some(v),
            None => crate::table::lookup(self.overrides, (None::<Series>, key)),
        }
    }
}

/// The flags of some enabled series.
pub open spec fn flags_of(series: Seq<Series>) -> Seq<bool> {
    Seq::new(6, |i: int| series.contains(Series::all_spec()[i]))
}

/// The overrides that apply to a series, in order: those for all, then its own.
pub open spec fn applicable(s: Overrides, series: Series) -> Seq<(Seq<char>, Seq<char>)>
    decreases s.len(),
{
    if s.len() == 0 {
        Seq::empty()
    } else {
        let before = applicable(s.drop_last(), series);
        let ((scope, key), value) = s.last();
        if scope == None::<Series> || scope == Some(series) {
            before.push((key, value))
        } else {
            before
        }
    }
}

impl RuntimeControlState {
    /// A state in which some series are enabled.
    fn new(enabled_series: &Vec<Series>) -> (r: RuntimeControlState)
        ensures
            r@ == (RuntimeView {
                halted: false,
                enabled: flags_of(enabled_series@),
                overrides: Seq::empty(),
                session_armed: false,
            }),
            r@.wf(),
    {
        let all = Series::all();
        let mut enabled: Vec<bool> = Vec::new();
        let mut i: usize = 0;
        while i < 6
            invariant
                i <= 6,
                all@ == Series::all_spec(),
                enabled@.len() == i,
                forall|j: int|
                    0 <= j < i ==> #[trigger] enabled@[j] == enabled_series@.contains(
                        Series::all_spec()[j],
                    ),
            decreases 6 - i,
        {
            let mut found = false;
            let mut j: usize = 0;
            while j < enabled_series.len()
                invariant
                    i < 6,
                    all@ == Series::all_spec(),
                    j <= enabled_series@.len(),
                    found == exists|k: int|
                        0 <= k < j && #[trigger] enabled_series@[k] == all@[i as int],
                decreases enabled_series.len() - j,
            {
                if enabled_series[j] == all[i] {
                    found = true;
                }
                j = j + 1;
            }
            enabled.push(found);
            i = i + 1;
        }
        let r = RuntimeControlState {
            halted: false,
            enabled,
            overrides: Vec::new(),
            session_armed: false,
        };
        assert(r@.enabled =~= flags_of(enabled_series@));
        assert(r@.overrides =~= Seq::empty());
        r
    }

    /// Whether trading is halted.
    pub fn is_halted(&self) -> (r: bool)
        ensures
            r == self@.halted,
    {
        self.halted
    }

    /// Whether a series is enabled.
    pub fn is_series_enabled(&self, series: Series) -> (r: bool)
        requires
            self@.wf(),
        ensures
            r == self@.enables(series),
    {
        self.enabled[series.rank() as usize]
    }

    /// Whether live trading is armed for this session.
    pub fn session_armed(&self) -> (r: bool)
        ensures
            r == self@.session_armed,
    {
        self.session_armed
    }

    /// The value under a scope and a parameter.
    fn find(&self, scope: Option<Series>, key: &str) -> (r: Option<String>)
        requires
            self@.wf(),
        ensures
            text_of(r) == crate::table::lookup(self@.overrides, (scope, key@)),
    {
        let ghost entries = self@.overrides;
        let mut i: usize = 0;
        while i < self.overrides.len()
            invariant
                i <= self.overrides@.len(),
                entries == override_entries(self.overrides@),
                self@.overrides == entries,
                in_order(entries),
                forall|j: int| 0 <= j < i ==> (#[trigger] entries[j]).0 != (scope, key@),
            decreases self.overrides.len() - i,
        {
            let o = &self.overrides[i];
            assert(entries[i as int] == override_entry(*o));
            if same_scope(o.scope, scope) && text::same(o.key.as_str(), key) {
                proof {
                    lemma_unique(entries);
                    crate::table::lemma_place(entries, (scope, key@), i as int);
                }
                return Some(o.value.clone());
            }
            i = i + 1;
        }
        None
    }

    /// The value of a parameter for a series: its own, or else that for all.
    pub fn param_override(&self, series: Series, key: &str) -> (r: Option<String>)
        requires
            self@.wf(),
        ensures
            text_of(r) == self@.override_for(series, key@),
    {
        match self.find(Some(series), key) {
            Some(v) => Some(v),
            None => self.find(None, key),
        }
    }

    /// The overrides that apply to a series, as parameter and value, in the order in which they
    /// are applied.
    pub fn overrides_for(&self, series: Series) -> (r: Vec<(String, String)>)
        ensures
            r@.len() == applicable(self@.overrides, series).len(),
            forall|i: int|
                0 <= i < r@.len() ==> ((#[trigger] r@[i]).0@, r@[i].1@) == applicable(
                    self@.overrides,
                    series,
                )[i],
    {
        let ghost entries = self@.overrides;
        let mut out: Vec<(String, String)> = Vec::new();
        let mut i: usize = 0;
        assert(entries.subrange(0, 0) =~= Seq::empty());
        while i < self.overrides.len()
            invariant
                i <= self.overrides@.len(),
                entries == override_entries(self.overrides@),
                out@.len() == applicable(entries.subrange(0, i as int), series).len(),
                forall|j: int|
                    0 <= j < out@.len() ==> ((#[trigger] out@[j]).0@, out@[j].1@) == applicable(
                        entries.subrange(0, i as int),
                        series,
                    )[j],
            decreases self.overrides.len() - i,
        {
            let o = &self.overrides[i];
            proof {
                let part = entries.subrange(0, i + 1);
                assert(part.drop_last() =~= entries.subrange(0, i as int));
                assert(part.last() == override_entry(*o));
            }
            if o.scope.is_none() || same_scope(o.scope, Some(series)) {
                out.push((o.key.clone(), o.value.clone()));
            }
            i = i + 1;
        }
        assert(entries.subrange(0, i as int) =~= entries);
        out
    }

    /// Sets a parameter for a scope.
    fn set_override(&mut self, scope: Option<Series>, key: &str, value: &str)
        requires
            old(self)@.wf(),
        ensures
            final(self)@ == (RuntimeView {
                overrides: with_override(old(self)@.overrides, (scope, key@), value@),
                ..old(self)@
            }),
            final(self)@.wf(),
    {
        let ghost entries = self@.overrides;
        let ghost k = (scope, key@);
        proof {
            lemma_with_override(entries, k, value@);
        }
        let mut at: usize = self.overrides.len();
        assert(entries.subrange(0, at as int) =~= entries);
        assert(with_override(entries, k, value@) =~= with_override(
            entries.subrange(0, at as int),
            k,
            value@,
        ) + entries.subrange(at as int, entries.len() as int));
        while at > 0 && stands_before(
            scope,
            key,
            self.overrides[at - 1].scope,
            self.overrides[at - 1].key.as_str(),
        )
            invariant
                at <= entries.len(),
                self.overrides@.len() == entries.len(),
                entries == override_entries(self.overrides@),
                k == (scope, key@),
                with_override(entries, k, value@) == with_override(
                    entries.subrange(0, at as int),
                    k,
                    value@,
                ) + entries.subrange(at as int, entries.len() as int),
            decreases at,
        {
            proof {
                let part = entries.subrange(0, at as int);
                assert(part.last() == override_entry(self.overrides@[at - 1]));
                assert(part.drop_last() =~= entries.subrange(0, at - 1));
                assert(with_override(part, k, value@) + entries.subrange(
                    at as int,
                    entries.len() as int,
                ) =~= with_override(entries.subrange(0, at - 1), k, value@) + entries.subrange(
                    at - 1,
                    entries.len() as int,
                ));
            }
            at = at - 1;
        }
        let o = ParamOverride { scope, key: key.to_owned(), value: value.to_owned() };
        let ghost part = entries.subrange(0, at as int);
        if at > 0 && same_scope(self.overrides[at - 1].scope, scope) && text::same(
            self.overrides[at - 1].key.as_str(),
            key,
        ) {
            self.overrides[at - 1] = o;
            proof {
                assert(part.last() == entries[at - 1]);
                assert(self@.overrides =~= with_override(entries, k, value@));
            }
        } else {
            self.overrides.insert(at, o);
            proof {
                if at > 0 {
                    assert(part.last() == entries[at - 1]);
                }
                assert(self@.overrides =~= with_override(entries, k, value@));
            }
        }
    }
}

proof fn lemma_unique(s: Overrides)
    requires
        in_order(s),
    ensures
        crate::table::unique_keys(s),
{
    assert forall|i: int, j: int|
        0 <= i < s.len() && 0 <= j < s.len() && (#[trigger] s[i]).0 == (#[trigger] s[j]).0 implies i
        == j by {
        if i < j {
            assert(override_before(s[i].0, s[j].0));
            lemma_override_order(s[i].0, s[j].0);
        } else if j < i {
            assert(override_before(s[j].0, s[i].0));
            lemma_override_order(s[j].0, s[i].0);
        }
    }
}

/// Whether two scopes are one.
fn same_scope(a: Option<Series>, b: Option<Series>) -> (r: bool)
    ensures
        r == (a == b),
{
    match (a, b) {
        (Some(x), Some(y)) => x == y,
        (None, None) => true,
        _ => false,
    }
}

/// Whether an override stands before another.
fn stands_before(a: Option<Series>, a_key: &str, b: Option<Series>, b_key: &str) -> (r: bool)
    ensures
        r == override_before((a, a_key@), (b, b_key@)),
{
    let a_rank: u8 = match a {
        Some(s) => s.rank() + 1,
        None => 0,
    };
    let b_rank: u8 = match b {
        Some(s) => s.rank() + 1,
        None => 0,
    };
    a_rank < b_rank || (same_scope(a, b) && text::comes_before(a_key, b_key))
}

/// The arming of live trading, as it is shown.
#[derive(Clone, Copy, PartialEq, Eq, Structural, Debug)]
pub struct ArmingView {
    /// Whether the configuration enables live trading.
    pub config_enabled: bool,
    /// Whether the environment confirms it.
    pub env_confirmed: bool,
    /// Whether it is armed for this session.
    pub session_armed: bool,
    /// Whether it can be armed.
    pub can_arm: bool,
    /// Whether an arming waits to be confirmed.
    pub pending: bool,
}

/// An override, as it is shown.
#[derive(Clone, Debug)]
pub struct ParamOverrideView {
    /// The series' key, or none for all.
    pub series: Option<String>,
    /// The parameter.
    pub key: String,
    /// Its value.
    pub value: String,
}

/// The control state, as it is shown.
#[derive(Clone, Debug)]
pub struct ControlStateSnapshot {
    /// Whether trading is halted.
    pub halted: bool,
    /// The keys of the enabled series, in series order.
    pub enabled_series: Vec<&'static str>,
    /// The arming of live trading.
    pub arming: ArmingView,
    /// The overrides, in order.
    pub param_overrides: Vec<ParamOverrideView>,
    /// The paper capital, which the venue has and the control plane does not know.
    pub paper_capital: Option<Amount>,
}

/// The answer to a command.
#[derive(Clone, Debug)]
pub struct ControlOutcome {
    /// How it was answered.
    pub kind: OutcomeKind,
    /// Why it was not accepted.
    pub error: Option<String>,
    /// The state after it.
    pub state: ControlStateSnapshot,
}

impl ControlOutcome {
    /// Whether the command was accepted.
    pub fn accepted(&self) -> (r: bool)
        ensures
            r == (self.kind is Accepted),
    {
        match self.kind {
            OutcomeKind::Accepted => true,
            _ => false,
        }
    }
}

/// What comes of a command.
#[derive(Clone, Debug)]
pub struct Decision {
    /// The answer.
    pub outcome: ControlOutcome,
    /// What goes to the bus before the audit.
    pub events: Vec<ControlEvent>,
    /// The audit, which goes to the bus last.
    pub audit: ControlAudit,
    /// What the venue is to do.
    pub venue_action: Option<VenueAction>,
}

/// Decides commands.
#[derive(Clone, Debug)]
pub struct ControlPlane {
    /// The runtime state.
    pub state: RuntimeControlState,
    arming: ArmingMachine,
    config_enabled: bool,
    env_confirmed: bool,
    phrase: String,
}

/// What a [`ControlPlane`] holds.
pub struct PlaneView {
    pub state: RuntimeView,
    pub arming: ArmingMachine,
    pub config_enabled: bool,
    pub env_confirmed: bool,
    pub phrase: Seq<char>,
}

impl View for ControlPlane {
    type V = PlaneView;

    closed spec fn view(&self) -> PlaneView {
        PlaneView {
            state: self.state@,
            arming: self.arming,
            config_enabled: self.config_enabled,
            env_confirmed: self.env_confirmed,
            phrase: self.phrase@,
        }
    }
}

impl ControlPlane {
    /// The runtime state.
    pub fn runtime(&self) -> (r: &RuntimeControlState)
        ensures
            r@ == self@.state,
    {
        &self.state
    }
}

/// What a command does, before its audit.
pub struct AppliedView {
    pub plane: PlaneView,
    pub kind: OutcomeKind,
    pub error: Option<Seq<char>>,
    pub events: Seq<ControlEvent>,
    pub action: Option<VenueAction>,
}

/// The series that setting a parameter affects: the one named, or all.
pub open spec fn affected(series: Option<Seq<char>>) -> Option<Seq<Series>> {
    match series {
        None => Some(Series::all_spec()),
        Some(key) => match Series::parsed(key) {
            Some(s) => Some(seq![s]),
            None => None,
        },
    }
}

/// The first refusal, with the series that it is of.
pub open spec fn first_refusal(refusals: Seq<Option<Seq<char>>>, series: Seq<Series>) -> Option<
    (Series, Seq<char>),
>
    decreases refusals.len(),
{
    if refusals.len() == 0 {
        None
    } else {
        match first_refusal(refusals.drop_last(), series.drop_last()) {
            Some(r) => Some(r),
            None => match refusals.last() {
                Some(message) => Some((series.last(), message)),
                None => None,
            },
        }
    }
}

/// What is said of a series that is not known.
pub open spec fn unknown_series(key: Seq<char>) -> Seq<char> {
    "unknown series key `"@ + key + "`"@
}

impl PlaneView {
    /// Accepted, with events and an action.
    pub open spec fn accepted(
        self,
        events: Seq<ControlEvent>,
        action: Option<VenueAction>,
    ) -> AppliedView {
        AppliedView { plane: self, kind: OutcomeKind::Accepted, error: None, events, action }
    }

    /// Refused.
    pub open spec fn refused(self, kind: OutcomeKind, message: Seq<char>) -> AppliedView {
        AppliedView {
            plane: self,
            kind,
            error: Some(message),
            events: Seq::empty(),
            action: None,
        }
    }

    /// With trading halted or not.
    pub open spec fn halting(self, halted: bool) -> PlaneView {
        PlaneView { state: RuntimeView { halted, ..self.state }, ..self }
    }

    /// With a state of arming.
    pub open spec fn arming_at(self, arming: ArmingMachine, session_armed: bool) -> PlaneView {
        PlaneView { arming, state: RuntimeView { session_armed, ..self.state }, ..self }
    }

    /// A series enabled or disabled, by its key. Only a change goes to the bus.
    pub open spec fn set_series(self, key: Seq<char>, enable: bool) -> AppliedView {
        match Series::parsed(key) {
            None => self.refused(OutcomeKind::Rejected, unknown_series(key)),
            Some(series) => {
                let after = PlaneView {
                    state: RuntimeView {
                        enabled: self.state.enabled.update(series.rank_spec(), enable),
                        ..self.state
                    },
                    ..self
                };
                after.accepted(
                    if self.state.enables(series) == enable {
                        Seq::empty()
                    } else if enable {
                        seq![ControlEvent::SeriesEnabled(series)]
                    } else {
                        seq![ControlEvent::SeriesDisabled(series)]
                    },
                    None,
                )
            },
        }
    }

    /// A parameter set. `refusals` holds what is wrong with the value for each affected series;
    /// one refusal refuses it for all.
    pub open spec fn set_param(
        self,
        series: Option<Seq<char>>,
        key: Seq<char>,
        value: Seq<char>,
        refusals: Seq<Option<Seq<char>>>,
    ) -> AppliedView {
        match affected(series) {
            None => self.refused(OutcomeKind::Rejected, unknown_series(series->0)),
            Some(all) => match first_refusal(refusals, all) {
                Some((s, message)) => self.refused(
                    OutcomeKind::Rejected,
                    if series is None {
                        "["@ + s.key_spec() + "] "@ + message
                    } else {
                        message
                    },
                ),
                None => {
                    let scope = if series is None {
                        None::<Series>
                    } else {
                        Some(all[0])
                    };
                    PlaneView {
                        state: RuntimeView {
                            overrides: with_override(self.state.overrides, (scope, key), value),
                            ..self.state
                        },
                        ..self
                    }.accepted(Seq::empty(), None)
                },
            },
        }
    }

    /// An arming begun: it needs the configuration and the environment.
    pub open spec fn arm_begin(self, now_ms: i64) -> AppliedView {
        if !self.config_enabled {
            self.refused(
                OutcomeKind::Conflict,
                "cannot arm: live trading is not enabled in config (gate 1)"@,
            )
        } else if !self.env_confirmed {
            self.refused(
                OutcomeKind::Conflict,
                "cannot arm: the BOT_SECRET_LIVE_CONFIRM environment phrase is absent or wrong (gate 2)"@,
            )
        } else {
            self.arming_at(
                ArmingMachine::PendingConfirm { deadline_ms: (now_ms + PENDING_TTL_MS) as i64 },
                self.state.session_armed,
            ).accepted(Seq::empty(), None)
        }
    }

    /// An arming confirmed: in time, and with the phrase.
    pub open spec fn arm_confirm(self, phrase: Seq<char>, now_ms: i64) -> AppliedView {
        match self.arming {
            ArmingMachine::Armed => self.refused(OutcomeKind::Conflict, "already armed"@),
            ArmingMachine::Disarmed => self.refused(
                OutcomeKind::Conflict,
                "no arming pending \u{2014} call arm-live first"@,
            ),
            ArmingMachine::PendingConfirm { deadline_ms } => {
                let disarmed = self.arming_at(ArmingMachine::Disarmed, self.state.session_armed);
                if now_ms > deadline_ms {
                    disarmed.refused(
                        OutcomeKind::Conflict,
                        "arming confirmation expired \u{2014} call arm-live again"@,
                    )
                } else if phrase != self.phrase {
                    self.refused(OutcomeKind::Rejected, "confirmation phrase does not match"@)
                } else if !(self.config_enabled && self.env_confirmed) {
                    disarmed.refused(
                        OutcomeKind::Conflict,
                        "cannot arm: a boot gate is missing"@,
                    )
                } else {
                    self.arming_at(ArmingMachine::Armed, true).accepted(Seq::empty(), None)
                }
            },
        }
    }

    /// Whether a time has room for the deadline of an arming that it begins.
    pub open spec fn has_deadline(self, command: DashboardCommand, now_ms: i64) -> bool {
        command is ArmLiveBegin && self.config_enabled && self.env_confirmed ==> now_ms
            + PENDING_TTL_MS <= i64::MAX
    }

    /// Whether a command can be decided: the time has room for a deadline, and a value to set was
    /// checked for each affected series.
    pub open spec fn decides(self, command: DashboardCommand, now_ms: i64, refusals: nat) -> bool {
        &&& self.has_deadline(command, now_ms)
        &&& command matches DashboardCommand::SetParam { series, .. } ==> (affected(
            text_of(series),
        ) matches Some(all) ==> refusals == all.len())
    }

    /// What a command does.
    pub open spec fn apply(
        self,
        command: DashboardCommand,
        now_ms: i64,
        refusals: Seq<Option<Seq<char>>>,
    ) -> AppliedView {
        match command {
            DashboardCommand::Kill => self.halting(true).accepted(
                seq![
                    ControlEvent::Kill,
                    ControlEvent::BreakerTripped(BreakerKind::Manual),
                    ControlEvent::CancelAllIssued(BreakerKind::Manual),
                ],
                Some(VenueAction::CancelAll),
            ),
            DashboardCommand::Reset => self.halting(false).accepted(
                seq![
                    ControlEvent::Reset,
                    ControlEvent::BreakerCleared(BreakerKind::Manual),
                    ControlEvent::BreakerCleared(BreakerKind::DailyStop),
                ],
                None,
            ),
            DashboardCommand::ResetDailyStop => self.accepted(
                seq![
                    ControlEvent::DailyStopReset,
                    ControlEvent::BreakerCleared(BreakerKind::DailyStop),
                ],
                None,
            ),
            DashboardCommand::SetPaperCapital(amount) => self.accepted(
                Seq::empty(),
                Some(VenueAction::SetCapital(amount)),
            ),
            DashboardCommand::AdjustPaperCapital(delta) => self.accepted(
                Seq::empty(),
                Some(VenueAction::AdjustCapital(delta)),
            ),
            DashboardCommand::EnableSeries(key) => self.set_series(key@, true),
            DashboardCommand::DisableSeries(key) => self.set_series(key@, false),
            DashboardCommand::SetParam { series, key, value } => self.set_param(
                text_of(series),
                key@,
                value@,
                refusals,
            ),
            DashboardCommand::ArmLiveBegin => self.arm_begin(now_ms),
            DashboardCommand::ArmLiveConfirm { phrase } => self.arm_confirm(phrase@, now_ms),
            DashboardCommand::Disarm => self.arming_at(ArmingMachine::Disarmed, false).accepted(
                Seq::empty(),
                None,
            ),
        }
    }

    /// The arming, as it is shown.
    pub open spec fn arming_view(self) -> ArmingView {
        ArmingView {
            config_enabled: self.config_enabled,
            env_confirmed: self.env_confirmed,
            session_armed: self.state.session_armed,
            can_arm: self.config_enabled && self.env_confirmed,
            pending: self.arming is PendingConfirm,
        }
    }
}

/// The kind of a command, as its audit has it.
pub open spec fn command_kind(command: DashboardCommand) -> Seq<char> {
    match command {
        DashboardCommand::Kill => "kill"@,
        DashboardCommand::Reset => "reset"@,
        DashboardCommand::ResetDailyStop => "reset_daily_stop"@,
        DashboardCommand::SetPaperCapital(_) => "set_capital"@,
        DashboardCommand::AdjustPaperCapital(_) => "adjust_capital"@,
        DashboardCommand::EnableSeries(_) => "enable_series"@,
        DashboardCommand::DisableSeries(_) => "disable_series"@,
        DashboardCommand::SetParam { .. } => "set_param"@,
        DashboardCommand::ArmLiveBegin => "arm_live"@,
        DashboardCommand::ArmLiveConfirm { .. } => "confirm_arm"@,
        DashboardCommand::Disarm => "disarm"@,
    }
}

/// A truth value in words.
pub open spec fn bool_text(b: bool) -> Seq<char> {
    if b {
        "true"@
    } else {
        "false"@
    }
}

/// What the audit says that a command did.
pub open spec fn audit_detail(command: DashboardCommand, after: PlaneView) -> Seq<char> {
    match command {
        DashboardCommand::Kill => "halted="@ + bool_text(after.state.halted),
        DashboardCommand::Reset => "halted="@ + bool_text(after.state.halted),
        DashboardCommand::ResetDailyStop => "cleared daily stop"@,
        DashboardCommand::SetPaperCapital(amount) => "set capital to "@ + amount.text_spec(),
        DashboardCommand::AdjustPaperCapital(delta) => "adjust capital by "@ + delta.text_spec(),
        DashboardCommand::EnableSeries(key) => "enable series "@ + key@,
        DashboardCommand::DisableSeries(key) => "disable series "@ + key@,
        DashboardCommand::SetParam { series, key, value } => "set "@ + key@ + "="@ + value@ + (
        " for "@ + match series {
            Some(s) => s@,
            None => "all"@,
        }),
        DashboardCommand::ArmLiveBegin => "arm begin (pending="@ + bool_text(
            after.arming is PendingConfirm,
        ) + ")"@,
        DashboardCommand::ArmLiveConfirm { .. } => "arm confirm (armed="@ + bool_text(
            after.state.session_armed,
        ) + ")"@,
        DashboardCommand::Disarm => "disarm"@,
    }
}

/// The keys of the enabled series, in series order.
pub open spec fn enabled_keys(state: RuntimeView, n: int) -> Seq<Seq<char>>
    decreases n,
{
    if n <= 0 {
        Seq::empty()
    } else {
        let before = enabled_keys(state, n - 1);
        if state.enabled[n - 1] {
            before.push(Series::all_spec()[n - 1].key_spec())
        } else {
            before
        }
    }
}

/// Whether a snapshot is that of a state.
pub open spec fn is_snapshot(plane: PlaneView, s: ControlStateSnapshot) -> bool {
    &&& s.halted == plane.state.halted
    &&& s.arming == plane.arming_view()
    &&& s.paper_capital is None
    &&& s.enabled_series@.len() == enabled_keys(plane.state, 6).len()
    &&& forall|i: int|
        0 <= i < s.enabled_series@.len() ==> (#[trigger] s.enabled_series@[i])@ == enabled_keys(
            plane.state,
            6,
        )[i]
    &&& s.param_overrides@.len() == plane.state.overrides.len()
    &&& forall|i: int|
        0 <= i < s.param_overrides@.len() ==> is_shown(
            plane.state.overrides[i],
            #[trigger] s.param_overrides@[i],
        )
}

/// Whether an override is shown as it is.
pub open spec fn is_shown(
    o: ((Option<Series>, Seq<char>), Seq<char>),
    v: ParamOverrideView,
) -> bool {
    &&& v.key@ == o.0.1
    &&& v.value@ == o.1
    &&& text_of(v.series) == match o.0.0 {
        Some(s) => Some(s.key_spec()),
        None => None,
    }
}

/// Whether a decision is what comes of a command.
pub open spec fn is_decision(
    before: PlaneView,
    command: DashboardCommand,
    origin: CommandOrigin,
    now_ms: i64,
    refusals: Seq<Option<Seq<char>>>,
    d: Decision,
) -> bool {
    let a = before.apply(command, now_ms, refusals);
    &&& d.outcome.kind == a.kind
    &&& text_of(d.outcome.error) == a.error
    &&& is_snapshot(a.plane, d.outcome.state)
    &&& d.events@ == a.events
    &&& d.venue_action == a.action
    &&& d.audit.ts_ms == now_ms
    &&& d.audit.origin == origin
    &&& d.audit.kind@ == command_kind(command)
    &&& d.audit.detail@ == audit_detail(command, a.plane)
    &&& d.audit.accepted == (a.kind is Accepted)
    &&& text_of(d.audit.error) == a.error
}

/// Refusals as texts.
pub open spec fn refusal_texts(refusals: Seq<Option<String>>) -> Seq<Option<Seq<char>>> {
    refusals.map_values(|r: Option<String>| text_of(r))
}

/// What a command did, before its audit.
struct Applied {
    kind: OutcomeKind,
    error: Option<String>,
    events: Vec<ControlEvent>,
    action: Option<VenueAction>,
}

impl Applied {
    /// Whether this is what a command does.
    spec fn is(self, a: AppliedView) -> bool {
        &&& self.kind == a.kind
        &&& text_of(self.error) == a.error
        &&& self.events@ == a.events
        &&& self.action == a.action
    }
}

/// Accepted.
fn accept(events: Vec<ControlEvent>, action: Option<VenueAction>) -> (r: Applied)
    ensures
        forall|p: PlaneView| #[trigger] r.is(p.accepted(events@, action)),
{
    Applied { kind: OutcomeKind::Accepted, error: None, events, action }
}

/// Refused.
fn refuse(kind: OutcomeKind, message: String) -> (r: Applied)
    ensures
        forall|p: PlaneView| #[trigger] r.is(p.refused(kind, message@)),
{
    let events: Vec<ControlEvent> = Vec::new();
    assert(events@ =~= Seq::empty());
    Applied { kind, error: Some(message), events, action: None }
}

/// An optional text again.
fn copy_text(t: &Option<String>) -> (r: Option<String>)
    ensures
        text_of(r) == text_of(*t),
{
    match t {
        Some(s) => Some(s.clone()),
        None => None,
    }
}

/// A truth value in words.
pub fn bool_word(b: bool) -> (r: &'static str)
    ensures
        r@ == bool_text(b),
{
    if b {
        "true"
    } else {
        "false"
    }
}

/// The series that setting a parameter affects: the one named, or all; `None` where the one
/// named is not known.
pub fn affected_series(series: &Option<String>) -> (r: Option<Vec<Series>>)
    ensures
        match r {
            Some(v) => affected(text_of(*series)) == Some(v@),
            None => affected(text_of(*series)) is None,
        },
{
    match series {
        None => Some(Series::all()),
        Some(key) => match Series::parse(key.as_str()) {
            Some(s) => {
                let mut one: Vec<Series> = Vec::new();
                one.push(s);
                assert(one@ =~= seq![s]);
                Some(one)
            },
            None => None,
        },
    }
}

impl ControlPlane {
    /// Whether the state is consistent.
    pub open spec fn wf(&self) -> bool {
        self@.state.wf()
    }

    /// A control plane in which some series are enabled. `config_enabled` and `env_confirmed`
    /// say whether the configuration and the environment allow live trading, and `phrase`
    /// confirms its arming.
    pub fn new(
        enabled_series: &Vec<Series>,
        config_enabled: bool,
        env_confirmed: bool,
        phrase: String,
    ) -> (r: ControlPlane)
        ensures
            r.wf(),
            r@ == (PlaneView {
                state: RuntimeView {
                    halted: false,
                    enabled: flags_of(enabled_series@),
                    overrides: Seq::empty(),
                    session_armed: false,
                },
                arming: ArmingMachine::Disarmed,
                config_enabled,
                env_confirmed,
                phrase: phrase@,
            }),
    {
        ControlPlane {
            state: RuntimeControlState::new(enabled_series),
            arming: ArmingMachine::Disarmed,
            config_enabled,
            env_confirmed,
            phrase,
        }
    }

    /// Decides a command. `refusals` holds, for a parameter to set, what is wrong with the value
    /// for each affected series.
    pub fn decide(
        &mut self,
        command: &DashboardCommand,
        origin: CommandOrigin,
        now_ms: i64,
        refusals: &Vec<Option<String>>,
    ) -> (r: Decision)
        requires
            old(self).wf(),
            old(self)@.decides(*command, now_ms, refusals@.len()),
        ensures
            final(self).wf(),
            final(self)@ == old(self)@.apply(*command, now_ms, refusal_texts(refusals@)).plane,
            is_decision(old(self)@, *command, origin, now_ms, refusal_texts(refusals@), r),
    {
        let applied = self.apply(command, now_ms, refusals);
        let state = self.snapshot();
        let accepted = match applied.kind {
            OutcomeKind::Accepted => true,
            _ => false,
        };
        let audit = ControlAudit {
            ts_ms: now_ms,
            origin,
            kind: kind_word(command).to_owned(),
            detail: self.detail(command),
            accepted,
            error: copy_text(&applied.error),
        };
        Decision {
            outcome: ControlOutcome { kind: applied.kind, error: applied.error, state },
            events: applied.events,
            audit,
            venue_action: applied.action,
        }
    }

    /// The state, as it is shown.
    pub fn snapshot(&self) -> (r: ControlStateSnapshot)
        requires
            self.wf(),
        ensures
            is_snapshot(self@, r),
    {
        let all = Series::all();
        let mut keys: Vec<&'static str> = Vec::new();
        let mut i: usize = 0;
        while i < 6
            invariant
                i <= 6,
                self.wf(),
                all@ == Series::all_spec(),
                keys@.len() == enabled_keys(self@.state, i as int).len(),
                forall|j: int|
                    0 <= j < keys@.len() ==> (#[trigger] keys@[j])@ == enabled_keys(
                        self@.state,
                        i as int,
                    )[j],
            decreases 6 - i,
        {
            assert(all@[i as int].rank_spec() == i);
            if self.state.is_series_enabled(all[i]) {
                keys.push(all[i].key());
            }
            i = i + 1;
        }
        let param_overrides = self.state.shown();
        ControlStateSnapshot {
            halted: self.state.is_halted(),
            enabled_series: keys,
            arming: ArmingView {
                config_enabled: self.config_enabled,
                env_confirmed: self.env_confirmed,
                session_armed: self.state.session_armed(),
                can_arm: self.config_enabled && self.env_confirmed,
                pending: self.pending(),
            },
            param_overrides,
            paper_capital: None,
        }
    }

    /// Whether an arming waits to be confirmed.
    fn pending(&self) -> (r: bool)
        ensures
            r == (self@.arming is PendingConfirm),
    {
        match self.arming {
            ArmingMachine::PendingConfirm { .. } => true,
            _ => false,
        }
    }

    /// What the audit says that a command did.
    fn detail(&self, command: &DashboardCommand) -> (r: String)
        ensures
            r@ == audit_detail(*command, self@),
    {
        match command {
            DashboardCommand::Kill => text::join2("halted=", bool_word(self.state.is_halted())),
            DashboardCommand::Reset => text::join2("halted=", bool_word(self.state.is_halted())),
            DashboardCommand::ResetDailyStop => "cleared daily stop".to_owned(),
            DashboardCommand::SetPaperCapital(amount) => text::join2(
                "set capital to ",
                amount.text().as_str(),
            ),
            DashboardCommand::AdjustPaperCapital(delta) => text::join2(
                "adjust capital by ",
                delta.text().as_str(),
            ),
            DashboardCommand::EnableSeries(key) => text::join2("enable series ", key.as_str()),
            DashboardCommand::DisableSeries(key) => text::join2("disable series ", key.as_str()),
            DashboardCommand::SetParam { series, key, value } => {
                let scope = match series {
                    Some(s) => text::join2(" for ", s.as_str()),
                    None => text::join2(" for ", "all"),
                };
                text::join5("set ", key.as_str(), "=", value.as_str(), scope.as_str())
            },
            DashboardCommand::ArmLiveBegin => text::join3(
                "arm begin (pending=",
                bool_word(self.pending()),
                ")",
            ),
            DashboardCommand::ArmLiveConfirm { .. } => text::join3(
                "arm confirm (armed=",
                bool_word(self.state.session_armed()),
                ")",
            ),
            DashboardCommand::Disarm => "disarm".to_owned(),
        }
    }

    /// Does what a command says, or refuses it.
    fn apply(&mut self, command: &DashboardCommand, now_ms: i64, refusals: &Vec<Option<String>>) -> (r:
        Applied)
        requires
            old(self).wf(),
            old(self)@.decides(*command, now_ms, refusals@.len()),
        ensures
            final(self).wf(),
            final(self)@ == old(self)@.apply(*command, now_ms, refusal_texts(refusals@)).plane,
            r.is(old(self)@.apply(*command, now_ms, refusal_texts(refusals@))),
    {
        match command {
            DashboardCommand::Kill => {
                self.state.halted = true;
                let events = vec![
                    ControlEvent::Kill,
                    ControlEvent::BreakerTripped(BreakerKind::Manual),
                    ControlEvent::CancelAllIssued(BreakerKind::Manual),
                ];
                accept(events, Some(VenueAction::CancelAll))
            },
            DashboardCommand::Reset => {
                self.state.halted = false;
                let events = vec![
                    ControlEvent::Reset,
                    ControlEvent::BreakerCleared(BreakerKind::Manual),
                    ControlEvent::BreakerCleared(BreakerKind::DailyStop),
                ];
                accept(events, None)
            },
            DashboardCommand::ResetDailyStop => {
                let events = vec![
                    ControlEvent::DailyStopReset,
                    ControlEvent::BreakerCleared(BreakerKind::DailyStop),
                ];
                accept(events, None)
            },
            DashboardCommand::SetPaperCapital(amount) => accept(
                Vec::new(),
                Some(VenueAction::SetCapital(*amount)),
            ),
            DashboardCommand::AdjustPaperCapital(delta) => accept(
                Vec::new(),
                Some(VenueAction::AdjustCapital(*delta)),
            ),
            DashboardCommand::EnableSeries(key) => self.set_series(key.as_str(), true),
            DashboardCommand::DisableSeries(key) => self.set_series(key.as_str(), false),
            DashboardCommand::SetParam { series, key, value } => self.set_param(
                series,
                key.as_str(),
                value.as_str(),
                refusals,
            ),
            DashboardCommand::ArmLiveBegin => self.arm_begin(now_ms),
            DashboardCommand::ArmLiveConfirm { phrase } => self.arm_confirm(
                phrase.as_str(),
                now_ms,
            ),
            DashboardCommand::Disarm => {
                self.arming = ArmingMachine::Disarmed;
                self.state.session_armed = false;
                accept(Vec::new(), None)
            },
        }
    }

    /// Enables or disables a series.
    fn set_series(&mut self, key: &str, enable: bool) -> (r: Applied)
        requires
            old(self).wf(),
        ensures
            final(self).wf(),
            final(self)@ == old(self)@.set_series(key@, enable).plane,
            r.is(old(self)@.set_series(key@, enable)),
    {
        let ghost before = self@;
        match Series::parse(key) {
            None => refuse(
                OutcomeKind::Rejected,
                text::join3("unknown series key `", key, "`"),
            ),
            Some(series) => {
                let at: usize = series.rank() as usize;
                let changed = self.state.enabled[at] != enable;
                self.state.enabled[at] = enable;
                assert(self@.state.enabled =~= before.state.enabled.update(
                    series.rank_spec(),
                    enable,
                ));
                let mut events: Vec<ControlEvent> = Vec::new();
                if changed {
                    if enable {
                        events.push(ControlEvent::SeriesEnabled(series));
                        assert(events@ =~= seq![ControlEvent::SeriesEnabled(series)]);
                    } else {
                        events.push(ControlEvent::SeriesDisabled(series));
                        assert(events@ =~= seq![ControlEvent::SeriesDisabled(series)]);
                    }
                }
                accept(events, None)
            },
        }
    }

    /// Sets a parameter.
    fn set_param(
        &mut self,
        series: &Option<String>,
        key: &str,
        value: &str,
        refusals: &Vec<Option<String>>,
    ) -> (r: Applied)
        requires
            old(self).wf(),
            affected(text_of(*series)) matches Some(all) ==> refusals@.len() == all.len(),
        ensures
            final(self).wf(),
            final(self)@ == old(self)@.set_param(
                text_of(*series),
                key@,
                value@,
                refusal_texts(refusals@),
            ).plane,
            r.is(
                old(self)@.set_param(text_of(*series), key@, value@, refusal_texts(refusals@)),
            ),
    {
        let all = match affected_series(series) {
            Some(all) => all,
            None => {
                let name = match series {
                    Some(s) => s.clone(),
                    None => String::new(),
                };
                return refuse(
                    OutcomeKind::Rejected,
                    text::join3("unknown series key `", name.as_str(), "`"),
                );
            },
        };
        let ghost texts = refusal_texts(refusals@);
        let mut i: usize = 0;
        assert(texts.subrange(0, 0) =~= Seq::empty());
        while i < all.len()
            invariant
                i <= all@.len(),
                texts == refusal_texts(refusals@),
                refusals@.len() == all@.len(),
                affected(text_of(*series)) == Some(all@),
                *self == *old(self),
                self.wf(),
                first_refusal(texts.subrange(0, i as int), all@.subrange(0, i as int)) is None,
            decreases all.len() - i,
        {
            proof {
                let part = texts.subrange(0, i + 1);
                let part_all = all@.subrange(0, i + 1);
                assert(part.drop_last() =~= texts.subrange(0, i as int));
                assert(part_all.drop_last() =~= all@.subrange(0, i as int));
                assert(part.last() == texts[i as int]);
                assert(part_all.last() == all@[i as int]);
            }
            if let Some(message) = &refusals[i] {
                proof {
                    lemma_first_refusal(texts, all@, i + 1);
                }
                let said = match series {
                    None => {
                        let head = text::join3("[", all[i].key(), "] ");
                        text::join2(head.as_str(), message.as_str())
                    },
                    Some(_) => message.clone(),
                };
                return refuse(OutcomeKind::Rejected, said);
            }
            i = i + 1;
        }
        assert(texts.subrange(0, i as int) =~= texts);
        assert(all@.subrange(0, i as int) =~= all@);
        let scope = match series {
            None => None,
            Some(_) => Some(all[0]),
        };
        self.state.set_override(scope, key, value);
        accept(Vec::new(), None)
    }

    /// Begins arming.
    fn arm_begin(&mut self, now_ms: i64) -> (r: Applied)
        requires
            old(self).wf(),
            old(self)@.has_deadline(DashboardCommand::ArmLiveBegin, now_ms),
        ensures
            final(self).wf(),
            final(self)@ == old(self)@.arm_begin(now_ms).plane,
            r.is(old(self)@.arm_begin(now_ms)),
    {
        if !self.config_enabled {
            return refuse(
                OutcomeKind::Conflict,
                "cannot arm: live trading is not enabled in config (gate 1)".to_owned(),
            );
        }
        if !self.env_confirmed {
            return refuse(
                OutcomeKind::Conflict,
                "cannot arm: the BOT_SECRET_LIVE_CONFIRM environment phrase is absent or wrong (gate 2)".to_owned(),
            );
        }
        self.arming = ArmingMachine::PendingConfirm { deadline_ms: now_ms + PENDING_TTL_MS };
        accept(Vec::new(), None)
    }

    /// Confirms an arming.
    fn arm_confirm(&mut self, phrase: &str, now_ms: i64) -> (r: Applied)
        requires
            old(self).wf(),
        ensures
            final(self).wf(),
            final(self)@ == old(self)@.arm_confirm(phrase@, now_ms).plane,
            r.is(old(self)@.arm_confirm(phrase@, now_ms)),
    {
        let deadline_ms: i64 = match self.arming {
            ArmingMachine::PendingConfirm { deadline_ms } => deadline_ms,
            ArmingMachine::Armed => {
                return refuse(OutcomeKind::Conflict, "already armed".to_owned());
            },
            ArmingMachine::Disarmed => {
                return refuse(
                    OutcomeKind::Conflict,
                    "no arming pending \u{2014} call arm-live first".to_owned(),
                );
            },
        };
        if now_ms > deadline_ms {
            self.arming = ArmingMachine::Disarmed;
            return refuse(
                OutcomeKind::Conflict,
                "arming confirmation expired \u{2014} call arm-live again".to_owned(),
            );
        }
        if !text::same(phrase, self.phrase.as_str()) {
            return refuse(
                OutcomeKind::Rejected,
                "confirmation phrase does not match".to_owned(),
            );
        }
        if !(self.config_enabled && self.env_confirmed) {
            self.arming = ArmingMachine::Disarmed;
            return refuse(
                OutcomeKind::Conflict,
                "cannot arm: a boot gate is missing".to_owned(),
            );
        }
        self.arming = ArmingMachine::Armed;
        self.state.session_armed = true;
        accept(Vec::new(), None)
    }
}

impl RuntimeControlState {
    /// The overrides, as they are shown.
    fn shown(&self) -> (r: Vec<ParamOverrideView>)
        ensures
            r@.len() == self@.overrides.len(),
            forall|i: int|
                0 <= i < r@.len() ==> is_shown(self@.overrides[i], #[trigger] r@[i]),
    {
        let mut out: Vec<ParamOverrideView> = Vec::new();
        let mut i: usize = 0;
        while i < self.overrides.len()
            invariant
                i <= self.overrides@.len(),
                self@.overrides == override_entries(self.overrides@),
                out@.len() == i,
                forall|j: int| 0 <= j < i ==> is_shown(self@.overrides[j], #[trigger] out@[j]),
            decreases self.overrides.len() - i,
        {
            let o = &self.overrides[i];
            let series = match o.scope {
                Some(s) => Some(s.key().to_owned()),
                None => None,
            };
            out.push(
                ParamOverrideView { series, key: o.key.clone(), value: o.value.clone() },
            );
            i = i + 1;
        }
        out
    }
}

/// The first refusal of some is that of all.
proof fn lemma_first_refusal(refusals: Seq<Option<Seq<char>>>, series: Seq<Series>, n: int)
    requires
        refusals.len() == series.len(),
        0 <= n <= refusals.len(),
        first_refusal(refusals.subrange(0, n), series.subrange(0, n)) is Some,
    ensures
        first_refusal(refusals, series) == first_refusal(
            refusals.subrange(0, n),
            series.subrange(0, n),
        ),
    decreases refusals.len() - n,
{
    if n == refusals.len() {
        assert(refusals.subrange(0, n) =~= refusals);
        assert(series.subrange(0, n) =~= series);
    } else {
        let part = refusals.subrange(0, n + 1);
        let part_series = series.subrange(0, n + 1);
        assert(part.drop_last() =~= refusals.subrange(0, n));
        assert(part_series.drop_last() =~= series.subrange(0, n));
        lemma_first_refusal(refusals, series, n + 1);
    }
}

/// The kind of a command, as its audit has it.
fn kind_word(command: &DashboardCommand) -> (r: &'static str)
    ensures
        r@ == command_kind(*command),
{
    match command {
        DashboardCommand::Kill => "kill",
        DashboardCommand::Reset => "reset",
        DashboardCommand::ResetDailyStop => "reset_daily_stop",
        DashboardCommand::SetPaperCapital(_) => "set_capital",
        DashboardCommand::AdjustPaperCapital(_) => "adjust_capital",
        DashboardCommand::EnableSeries(_) => "enable_series",
        DashboardCommand::DisableSeries(_) => "disable_series",
        DashboardCommand::SetParam { .. } => "set_param",
        DashboardCommand::ArmLiveBegin => "arm_live",
        DashboardCommand::ArmLiveConfirm { .. } => "confirm_arm",
        DashboardCommand::Disarm => "disarm",
    }
}

/// Live trading becomes armed only by a confirmation with the phrase, in time, of an arming that
/// was begun, while the configuration and the environment allow it.
pub proof fn law_arming_takes_every_step(
    p: PlaneView,
    command: DashboardCommand,
    now_ms: i64,
    refusals: Seq<Option<Seq<char>>>,
)
    requires
        !p.state.session_armed,
        p.apply(command, now_ms, refusals).plane.state.session_armed,
    ensures
        command matches DashboardCommand::ArmLiveConfirm { phrase } && phrase@ == p.phrase,
        p.arming matches ArmingMachine::PendingConfirm { deadline_ms } && now_ms <= deadline_ms,
        p.config_enabled && p.env_confirmed,
{
}

/// A command with when it came and what was wrong with the value that it sets.
pub struct Step {
    /// The command.
    pub command: DashboardCommand,
    /// When, Unix milliseconds.
    pub now_ms: i64,
    /// What is wrong with the value, for each affected series.
    pub refusals: Seq<Option<Seq<char>>>,
}

/// A plane after some commands.
pub open spec fn plane_after(p: PlaneView, steps: Seq<Step>) -> PlaneView
    decreases steps.len(),
{
    if steps.len() == 0 {
        p
    } else {
        let last = steps.last();
        plane_after(p, steps.drop_last()).apply(last.command, last.now_ms, last.refusals).plane
    }
}

/// Whether the command at `i` began an arming which none up to `n` began anew or gave up.
pub open spec fn begun_at(steps: Seq<Step>, i: int, n: int) -> bool {
    &&& 0 <= i < n <= steps.len()
    &&& steps[i].command is ArmLiveBegin
    &&& forall|k: int|
        i < k < n ==> !((#[trigger] steps[k]).command is ArmLiveBegin)
            && !(steps[k].command is Disarm)
}

/// Whether the command at `j` confirmed, with the phrase and within the minute, the arming that the
/// one at `i` had begun last, and none since disarmed.
pub open spec fn armed_by(steps: Seq<Step>, phrase: Seq<char>, i: int, j: int) -> bool {
    &&& begun_at(steps, i, j)
    &&& j < steps.len()
    &&& steps[j].command matches DashboardCommand::ArmLiveConfirm { phrase: given }
        && given@ == phrase
    &&& steps[j].now_ms <= steps[i].now_ms + PENDING_TTL_MS
    &&& forall|k: int| j < k < steps.len() ==> !((#[trigger] steps[k]).command is Disarm)
}

/// What begins, confirms or waits to be confirmed at any time was begun so.
proof fn lemma_armed_by(p: PlaneView, steps: Seq<Step>)
    requires
        p.arming is Disarmed,
        !p.state.session_armed,
        forall|k: int|
            0 <= k < steps.len() ==> p.has_deadline(
                (#[trigger] steps[k]).command,
                steps[k].now_ms,
            ),
    ensures
        ({
            let q = plane_after(p, steps);
            &&& q.config_enabled == p.config_enabled && q.env_confirmed == p.env_confirmed
                && q.phrase == p.phrase
            &&& q.arming matches ArmingMachine::PendingConfirm { deadline_ms } ==> p.config_enabled
                && p.env_confirmed && exists|i: int| #[trigger]
                begun_at(steps, i, steps.len() as int) && deadline_ms == steps[i].now_ms
                    + PENDING_TTL_MS
            &&& q.state.session_armed ==> p.config_enabled && p.env_confirmed && exists|
                i: int,
                j: int,
            | #[trigger]
                armed_by(steps, p.phrase, i, j)
        }),
    decreases steps.len(),
{
    if steps.len() > 0 {
        let rest = steps.drop_last();
        let n = rest.len() as int;
        let last = steps.last();
        assert forall|k: int| 0 <= k < n implies p.has_deadline(
            (#[trigger] rest[k]).command,
            rest[k].now_ms,
        ) by {
            assert(rest[k] == steps[k]);
        }
        lemma_armed_by(p, rest);
        let before = plane_after(p, rest);
        let q = plane_after(p, steps);
        assert(p.has_deadline(steps[n].command, steps[n].now_ms));
        assert forall|i: int| #[trigger] begun_at(rest, i, n) implies begun_at(steps, i, n) by {
            assert(rest[i] == steps[i]);
            assert forall|k: int| i < k < n implies !((#[trigger] steps[k]).command is ArmLiveBegin)
                && !(steps[k].command is Disarm) by {
                assert(rest[k] == steps[k]);
            }
        }
        if q.arming is PendingConfirm {
            if last.command is ArmLiveBegin {
                assert(begun_at(steps, n, n + 1));
            } else {
                let i = choose|i: int| #[trigger]
                    begun_at(rest, i, n) && before.arming->deadline_ms == rest[i].now_ms
                        + PENDING_TTL_MS;
                assert(begun_at(steps, i, n + 1));
            }
        }
        if q.state.session_armed {
            if before.state.session_armed {
                let (i, j) = choose|i: int, j: int| #[trigger] armed_by(rest, p.phrase, i, j);
                assert(rest[i] == steps[i] && rest[j] == steps[j]);
                assert forall|k: int| i < k < j implies !((
                #[trigger] steps[k]).command is ArmLiveBegin) && !(steps[k].command is Disarm) by {
                    assert(rest[k] == steps[k]);
                }
                assert forall|k: int| j < k < steps.len() implies !((
                #[trigger] steps[k]).command is Disarm) by {
                    if k < n {
                        assert(rest[k] == steps[k]);
                    }
                }
                assert(armed_by(steps, p.phrase, i, j));
            } else {
                law_arming_takes_every_step(before, last.command, last.now_ms, last.refusals);
                let i = choose|i: int| #[trigger]
                    begun_at(rest, i, n) && before.arming->deadline_ms == rest[i].now_ms
                        + PENDING_TTL_MS;
                assert(rest[i] == steps[i]);
                assert(armed_by(steps, p.phrase, i, n));
            }
        }
    }
}

/// Whatever commands came since a plane was made, live trading is armed only where the
/// configuration and the environment allow it, and a confirmation with the phrase came no later than
/// a minute after the arming was last begun, with no disarm since.
pub proof fn law_armed_within_a_minute_of_the_begin(p: PlaneView, steps: Seq<Step>)
    requires
        p.arming is Disarmed,
        !p.state.session_armed,
        forall|k: int|
            0 <= k < steps.len() ==> p.has_deadline(
                (#[trigger] steps[k]).command,
                steps[k].now_ms,
            ),
        plane_after(p, steps).state.session_armed,
    ensures
        p.config_enabled && p.env_confirmed,
        exists|i: int, j: int| #[trigger] armed_by(steps, p.phrase, i, j),
{
    lemma_armed_by(p, steps);
}

/// A refused command leaves the runtime state as it is, sends nothing to the bus but its audit,
/// and asks nothing of the venue.
pub proof fn law_refused_changes_nothing(
    p: PlaneView,
    command: DashboardCommand,
    now_ms: i64,
    refusals: Seq<Option<Seq<char>>>,
)
    requires
        p.apply(command, now_ms, refusals).kind !is Accepted,
    ensures
        p.apply(command, now_ms, refusals).plane.state == p.state,
        p.apply(command, now_ms, refusals).events.len() == 0,
        p.apply(command, now_ms, refusals).action is None,
        p.apply(command, now_ms, refusals).error is Some,
{
}

/// Only a kill halts trading, and only a reset lets it go on.
pub proof fn law_halted_by_kill_until_reset(
    p: PlaneView,
    command: DashboardCommand,
    now_ms: i64,
    refusals: Seq<Option<Seq<char>>>,
)
    ensures
        p.apply(command, now_ms, refusals).plane.state.halted == (match command {
            DashboardCommand::Kill => true,
            DashboardCommand::Reset => false,
            _ => p.state.halted,
        }),
        command is Kill ==> p.apply(command, now_ms, refusals).action == Some(
            VenueAction::CancelAll,
        ),
{
}

/// An arming is begun exactly where the configuration and the environment allow it, is then to be
/// confirmed within a minute, and leaves everything else as it was.
pub proof fn law_arming_begins_behind_both_gates(
    p: PlaneView,
    now_ms: i64,
    refusals: Seq<Option<Seq<char>>>,
)
    requires
        p.has_deadline(DashboardCommand::ArmLiveBegin, now_ms),
    ensures
        ({
            let a = p.apply(DashboardCommand::ArmLiveBegin, now_ms, refusals);
            &&& a.kind == OutcomeKind::Accepted <==> p.config_enabled && p.env_confirmed
            &&& a.kind != OutcomeKind::Accepted ==> a.kind == OutcomeKind::Conflict && a.plane == p
            &&& a.kind == OutcomeKind::Accepted ==> a.plane == PlaneView {
                arming: a.plane.arming,
                ..p
            } && (a.plane.arming matches ArmingMachine::PendingConfirm { deadline_ms }
                && deadline_ms == now_ms + 60_000)
            &&& a.plane.state.session_armed == p.state.session_armed
        }),
{
}

/// A confirmation with the phrase, in time and behind both gates arms. Too late, it gives the arming
/// up; with another phrase it is refused and the arming waits on; without an arming that waits it is
/// refused.
pub proof fn law_confirmation_arms_in_time(
    p: PlaneView,
    phrase: String,
    now_ms: i64,
    refusals: Seq<Option<Seq<char>>>,
)
    ensures
        ({
            let a = p.apply(DashboardCommand::ArmLiveConfirm { phrase }, now_ms, refusals);
            match p.arming {
                ArmingMachine::PendingConfirm { deadline_ms } => {
                    &&& now_ms <= deadline_ms && phrase@ == p.phrase && p.config_enabled
                        && p.env_confirmed ==> a.kind == OutcomeKind::Accepted
                        && a.plane.state.session_armed && a.plane.arming == ArmingMachine::Armed
                    &&& now_ms > deadline_ms ==> a.kind == OutcomeKind::Conflict && a.plane.arming
                        == ArmingMachine::Disarmed
                    &&& now_ms <= deadline_ms && phrase@ != p.phrase ==> a.kind
                        == OutcomeKind::Rejected && a.plane == p
                },
                _ => a.kind == OutcomeKind::Conflict && a.plane == p,
            }
        }),
{
}

/// What goes to the bus and to the venue: a kill trips the manual breaker and cancels every order; a
/// reset clears both breakers; a reset of the daily stop clears that one; the capital is the venue's
/// to set or to change by what was asked; an arming and a disarm send nothing.
pub proof fn law_what_each_command_sends(
    p: PlaneView,
    amount: Amount,
    delta: Figure,
    now_ms: i64,
    refusals: Seq<Option<Seq<char>>>,
)
    ensures
        ({
            let kill = p.apply(DashboardCommand::Kill, now_ms, refusals);
            let reset = p.apply(DashboardCommand::Reset, now_ms, refusals);
            let daily = p.apply(DashboardCommand::ResetDailyStop, now_ms, refusals);
            let set = p.apply(DashboardCommand::SetPaperCapital(amount), now_ms, refusals);
            let adjust = p.apply(DashboardCommand::AdjustPaperCapital(delta), now_ms, refusals);
            let disarm = p.apply(DashboardCommand::Disarm, now_ms, refusals);
            &&& kill.kind is Accepted && kill.events.len() == 3 && kill.events[0]
                == ControlEvent::Kill && kill.events[1] == ControlEvent::BreakerTripped(
                BreakerKind::Manual,
            ) && kill.events[2] == ControlEvent::CancelAllIssued(BreakerKind::Manual)
            &&& reset.kind is Accepted && reset.events.len() == 3 && reset.events[0]
                == ControlEvent::Reset && reset.events[1] == ControlEvent::BreakerCleared(
                BreakerKind::Manual,
            ) && reset.events[2] == ControlEvent::BreakerCleared(BreakerKind::DailyStop)
                && reset.action is None
            &&& daily.kind is Accepted && daily.events.len() == 2 && daily.events[0]
                == ControlEvent::DailyStopReset && daily.events[1] == ControlEvent::BreakerCleared(
                BreakerKind::DailyStop,
            ) && daily.action is None && daily.plane == p
            &&& set.kind is Accepted && set.action == Some(VenueAction::SetCapital(amount))
                && set.events.len() == 0 && set.plane == p
            &&& adjust.kind is Accepted && adjust.action == Some(VenueAction::AdjustCapital(delta))
                && adjust.events.len() == 0 && adjust.plane == p
            &&& disarm.kind is Accepted && disarm.events.len() == 0 && disarm.action is None
        }),
{
}

/// Switching a series is accepted exactly where its key is known. It switches that series and no
/// other, and only a change goes to the bus.
pub proof fn law_series_is_switched_by_its_key(
    p: PlaneView,
    key: Seq<char>,
    enable: bool,
    series: Series,
    other: Series,
)
    requires
        p.state.wf(),
    ensures
        ({
            let a = p.set_series(key, enable);
            &&& a.kind is Accepted <==> exists|s: Series| #[trigger] s.key_spec() == key
            &&& a.kind is Accepted || a.kind is Rejected && a.plane == p
            &&& key == series.key_spec() ==> a.plane.state.enables(series) == enable && (other
                != series ==> a.plane.state.enables(other) == p.state.enables(other))
            &&& key == series.key_spec() && p.state.enables(series) != enable ==> a.events.len()
                == 1 && a.events[0] == (if enable {
                ControlEvent::SeriesEnabled(series)
            } else {
                ControlEvent::SeriesDisabled(series)
            })
            &&& key == series.key_spec() && p.state.enables(series) == enable ==> a.events.len()
                == 0
            &&& a.plane.state.halted == p.state.halted && a.plane.state.overrides
                == p.state.overrides && a.plane.arming == p.arming
            &&& a.action is None
        }),
{
    series.law_key_is_read_back();
    Series::law_series_stand_by_asset_and_length(series, other);
    Series::law_series_stand_by_asset_and_length(other, series);
    Series::lemma_rank_unique(series, other);
    if exists|s: Series| #[trigger] s.key_spec() == key {
        let s = choose|s: Series| #[trigger] s.key_spec() == key;
        s.law_key_is_read_back();
    }
}

/// A plane begins with the listed series enabled and no other.
pub proof fn law_listed_series_begin_enabled(listed: Seq<Series>, series: Series)
    ensures
        flags_of(listed).len() == 6,
        flags_of(listed)[series.rank_spec()] == listed.contains(series),
{
    Series::law_series_stand_by_asset_and_length(series, series);
}

/// The first refusal is that of the first series that refuses; there is none where none refuses.
pub proof fn law_first_series_to_refuse(refusals: Seq<Option<Seq<char>>>, series: Seq<Series>)
    requires
        refusals.len() == series.len(),
    ensures
        first_refusal(refusals, series) is None <==> forall|i: int|
            0 <= i < refusals.len() ==> #[trigger] refusals[i] is None,
        first_refusal(refusals, series) matches Some((s, message)) ==> exists|i: int|
            0 <= i < refusals.len() && #[trigger] refusals[i] == Some(message) && series[i] == s
                && forall|j: int| 0 <= j < i ==> #[trigger] refusals[j] is None,
    decreases refusals.len(),
{
    if refusals.len() > 0 {
        let rest = refusals.drop_last();
        let last = refusals.len() - 1;
        law_first_series_to_refuse(rest, series.drop_last());
        assert(refusals[last] == refusals.last() && series[last] == series.last());
        assert forall|i: int| 0 <= i < last implies #[trigger] rest[i] == refusals[i] by {}
        if first_refusal(rest, series.drop_last()) is Some {
            let (s, message) = first_refusal(rest, series.drop_last())->0;
            let i = choose|i: int|
                0 <= i < rest.len() && #[trigger] rest[i] == Some(message)
                    && series.drop_last()[i] == s && forall|j: int|
                    0 <= j < i ==> #[trigger] rest[j] is None;
            assert(refusals[i] == rest[i]);
            assert forall|j: int| 0 <= j < i implies #[trigger] refusals[j] is None by {
                assert(rest[j] == refusals[j]);
            }
        } else {
            assert forall|j: int| 0 <= j < last implies #[trigger] refusals[j] is None by {
                assert(rest[j] is None);
            }
        }
    }
}

/// A parameter is set where no affected series refuses the value: for the series that is named, or
/// for all where none is. One refusal, or an unknown series, refuses it and changes nothing.
pub proof fn law_param_is_set_where_none_refuses(
    p: PlaneView,
    series: Option<Seq<char>>,
    key: Seq<char>,
    value: Seq<char>,
    refusals: Seq<Option<Seq<char>>>,
)
    requires
        affected(series) matches Some(all) ==> refusals.len() == all.len(),
    ensures
        ({
            let a = p.set_param(series, key, value, refusals);
            let known = series matches Some(k) ==> exists|s: Series| #[trigger] s.key_spec() == k;
            &&& a.kind is Accepted <==> known && forall|i: int|
                0 <= i < refusals.len() ==> #[trigger] refusals[i] is None
            &&& !(a.kind is Accepted) ==> a.kind is Rejected && a.plane == p
            &&& a.kind is Accepted ==> a.plane == PlaneView {
                state: RuntimeView { overrides: a.plane.state.overrides, ..p.state },
                ..p
            }
            &&& a.kind is Accepted && series is None ==> a.plane.state.overrides == with_override(
                p.state.overrides,
                (None::<Series>, key),
                value,
            )
            &&& forall|s: Series|
                a.kind is Accepted && series == Some(#[trigger] s.key_spec())
                    ==> a.plane.state.overrides == with_override(
                    p.state.overrides,
                    (Some(s), key),
                    value,
                )
            &&& a.events.len() == 0 && a.action is None
        }),
{
    if affected(series) is Some {
        law_first_series_to_refuse(refusals, affected(series)->0);
    }
    assert forall|s: Series| series == Some(#[trigger] s.key_spec()) implies Series::parsed(
        series->0,
    ) == Some(s) by {
        s.law_key_is_read_back();
    }
}

/// The values that apply to a series are those set for all and for it alone, in their order; what is
/// set for all stands before what is set for one.
pub proof fn law_applicable_values(s: Overrides, series: Series)
    ensures
        applicable(s, series) == s.filter(
            |e: ((Option<Series>, Seq<char>), Seq<char>)| e.0.0 is None || e.0.0 == Some(series),
        ).map_values(|e: ((Option<Series>, Seq<char>), Seq<char>)| (e.0.1, e.1)),
        forall|a: Seq<char>, b: Seq<char>|
            #![trigger override_before((None::<Series>, a), (Some(series), b))]
            override_before((None::<Series>, a), (Some(series), b)),
    decreases s.len(),
{
    reveal(Seq::filter);
    let own = |e: ((Option<Series>, Seq<char>), Seq<char>)|
        e.0.0 is None || e.0.0 == Some(series);
    let shown = |e: ((Option<Series>, Seq<char>), Seq<char>)| (e.0.1, e.1);
    Series::law_series_stand_by_asset_and_length(series, series);
    if s.len() == 0 {
        assert(s.filter(own).map_values(shown) =~= Seq::empty());
    } else {
        law_applicable_values(s.drop_last(), series);
        let before = s.drop_last().filter(own);
        assert(before.push(s.last()).map_values(shown) =~= before.map_values(shown).push(
            shown(s.last()),
        ));
    }
}

/// The keys that are shown are those of the enabled series, and of no other.
pub proof fn law_shown_keys_are_of_the_enabled(state: RuntimeView, series: Series)
    requires
        state.enabled.len() == 6,
    ensures
        enabled_keys(state, 6).contains(series.key_spec()) <==> state.enables(series),
{
    Series::law_series_stand_by_asset_and_length(series, series);
    lemma_enabled_keys(state, 6, series);
}

proof fn lemma_enabled_keys(state: RuntimeView, n: int, series: Series)
    requires
        0 <= n <= 6,
    ensures
        enabled_keys(state, n).contains(series.key_spec()) <==> series.rank_spec() < n
            && state.enabled[series.rank_spec()],
    decreases n,
{
    Series::law_series_stand_by_asset_and_length(series, series);
    if n > 0 {
        lemma_enabled_keys(state, n - 1, series);
        let s = Series::all_spec()[n - 1];
        Series::law_series_stand_by_asset_and_length(s, s);
        assert(s.rank_spec() == n - 1);
        Series::lemma_key_unique(s, series);
        Series::lemma_rank_unique(s, series);
        lemma_push_contains(enabled_keys(state, n - 1), s.key_spec(), series.key_spec());
    }
}

/// A disarm always leaves live trading disarmed, with no confirmation open.
pub proof fn law_disarm_always_disarms(
    p: PlaneView,
    now_ms: i64,
    refusals: Seq<Option<Seq<char>>>,
)
    ensures
        !p.apply(DashboardCommand::Disarm, now_ms, refusals).plane.state.session_armed,
        p.apply(DashboardCommand::Disarm, now_ms, refusals).plane.arming
            == ArmingMachine::Disarmed,
{
}

/// A series that is switched to where it stands is accepted again, changes nothing and sends
/// nothing to the bus.
pub proof fn law_switching_a_series_twice_is_once(
    p: PlaneView,
    key: Seq<char>,
    enable: bool,
)
    requires
        p.state.wf(),
        p.set_series(key, enable).kind is Accepted,
    ensures
        ({
            let once = p.set_series(key, enable).plane;
            let twice = once.set_series(key, enable);
            &&& twice.kind is Accepted
            &&& twice.plane == once
            &&& twice.events.len() == 0
        }),
{
    let once = p.set_series(key, enable).plane;
    assert(once.set_series(key, enable).plane.state.enabled =~= once.state.enabled);
}

/// What an audit says of a confirmation does not depend on the phrase that was given.
pub proof fn law_audit_does_not_hold_the_phrase(a: String, b: String, after: PlaneView)
    ensures
        audit_detail(DashboardCommand::ArmLiveConfirm { phrase: a }, after) == audit_detail(
            DashboardCommand::ArmLiveConfirm { phrase: b },
            after,
        ),
{
}

/// A parameter that was set is what the series that it was set for read, unless one has its own;
/// no other parameter changes.
pub proof fn law_set_param_is_read_back(
    p: PlaneView,
    scope: Option<Series>,
    key: Seq<char>,
    value: Seq<char>,
    series: Series,
    other: Seq<char>,
)
    requires
        p.state.wf(),
    ensures
        ({
            let after = RuntimeView {
                overrides: with_override(p.state.overrides, (scope, key), value),
                ..p.state
            };
            &&& scope == Some(series) ==> after.override_for(series, key) == Some(value)
            &&& scope is None && crate::table::lookup(p.state.overrides, (Some(series), key)) is None
                ==> after.override_for(series, key) == Some(value)
            &&& other != key ==> after.override_for(series, other) == p.state.override_for(
                series,
                other,
            )
        }),
{
    let s = p.state.overrides;
    let t = with_override(s, (scope, key), value);
    lemma_with_override(s, (scope, key), value);
    lemma_unique(s);
    lemma_unique(t);
    lemma_lookup(s, t, (scope, key), value, (Some(series), key));
    lemma_lookup(s, t, (scope, key), value, (None, key));
    lemma_lookup(s, t, (scope, key), value, (Some(series), other));
    lemma_lookup(s, t, (scope, key), value, (None, other));
}

proof fn lemma_lookup(
    s: Overrides,
    t: Overrides,
    k: (Option<Series>, Seq<char>),
    v: Seq<char>,
    q: (Option<Series>, Seq<char>),
)
    requires
        crate::table::unique_keys(s),
        crate::table::unique_keys(t),
        forall|e: ((Option<Series>, Seq<char>), Seq<char>)| #[trigger]
            t.contains(e) <==> (e == (k, v) || (e.0 != k && s.contains(e))),
    ensures
        crate::table::lookup(t, q) == if q == k {
            Some(v)
        } else {
            crate::table::lookup(s, q)
        },
{
    if q == k {
        assert(t.contains((k, v)));
        let i = choose|i: int| 0 <= i < t.len() && t[i] == (k, v);
        crate::table::lemma_place(t, q, i);
    } else {
        if crate::table::holds_key(s, q) {
            let i = crate::table::place(s, q);
            assert(s[i].0 == q);
            assert(s.contains(s[i]));
            assert(t.contains(s[i]));
            let j = choose|j: int| 0 <= j < t.len() && t[j] == s[i];
            crate::table::lemma_place(t, q, j);
        }
        if crate::table::holds_key(t, q) {
            let j = crate::table::place(t, q);
            assert(t[j].0 == q);
            assert(t.contains(t[j]));
            assert(s.contains(t[j]));
            let i = choose|i: int| 0 <= i < s.len() && s[i] == t[j];
            crate::table::lemma_place(s, q, i);
        }
    }
}

/// What is shown of the arming follows from the gates and the steps: it can be armed behind both
/// gates, and one is pending between begin and confirmation.
pub proof fn law_arming_is_shown_as_it_is(p: PlaneView)
    ensures
        p.arming_view().config_enabled == p.config_enabled,
        p.arming_view().env_confirmed == p.env_confirmed,
        p.arming_view().can_arm <==> p.config_enabled && p.env_confirmed,
        p.arming_view().session_armed == p.state.session_armed,
        p.arming_view().pending <==> !(p.arming is Armed) && !(p.arming is Disarmed),
{
}

/// A snapshot shows whether the session is halted and each parameter that was set, with its key,
/// its value and its series, in order.
pub proof fn law_snapshot_shows_what_was_set(p: PlaneView, s: ControlStateSnapshot, i: int)
    requires
        is_snapshot(p, s),
        0 <= i < p.state.overrides.len(),
    ensures
        s.halted == p.state.halted,
        s.arming == p.arming_view(),
        s.param_overrides@.len() == p.state.overrides.len(),
        s.param_overrides@[i].key@ == p.state.overrides[i].0.1,
        s.param_overrides@[i].value@ == p.state.overrides[i].1,
        p.state.overrides[i].0.0 matches Some(series) ==> s.param_overrides@[i].series is Some
            && s.param_overrides@[i].series->0@ == series.key_spec(),
        p.state.overrides[i].0.0 is None ==> s.param_overrides@[i].series is None,
{
}

/// Every decision is audited as it was taken: when, by whom, and whether it was accepted; what is
/// refused has a reason, the same for the operator and for the audit.
pub proof fn law_decision_is_audited(
    before: PlaneView,
    command: DashboardCommand,
    origin: CommandOrigin,
    now_ms: i64,
    refusals: Seq<Option<Seq<char>>>,
    d: Decision,
)
    requires
        is_decision(before, command, origin, now_ms, refusals, d),
    ensures
        d.audit.ts_ms == now_ms,
        d.audit.origin == origin,
        d.audit.accepted <==> d.outcome.kind is Accepted,
        text_of(d.audit.error) == text_of(d.outcome.error),
        d.outcome.kind == before.apply(command, now_ms, refusals).kind,
        d.events@ == before.apply(command, now_ms, refusals).events,
        d.venue_action == before.apply(command, now_ms, refusals).action,
{
}

/// What holds for every series stands before what holds for one, and those stand in the order of
/// the series.
pub proof fn law_scopes_stand_in_order(a: Series, b: Series)
    ensures
        scope_rank(None) < scope_rank(Some(a)),
        scope_rank(Some(a)) < scope_rank(Some(b)) <==> a.rank_spec() < b.rank_spec(),
{
}

/// A command is known in the audit by its word.
pub proof fn law_command_is_known_by_its_word(command: DashboardCommand)
    ensures
        command_kind(command) == "kill"@ <==> command is Kill,
        command_kind(command) == "reset"@ <==> command is Reset,
        command_kind(command) == "reset_daily_stop"@ <==> command is ResetDailyStop,
        command_kind(command) == "set_capital"@ <==> command is SetPaperCapital,
        command_kind(command) == "adjust_capital"@ <==> command is AdjustPaperCapital,
        command_kind(command) == "enable_series"@ <==> command is EnableSeries,
        command_kind(command) == "disable_series"@ <==> command is DisableSeries,
        command_kind(command) == "set_param"@ <==> command is SetParam,
        command_kind(command) == "arm_live"@ <==> command is ArmLiveBegin,
        command_kind(command) == "confirm_arm"@ <==> command is ArmLiveConfirm,
        command_kind(command) == "disarm"@ <==> command is Disarm,
{
    reveal_strlit("kill");
    reveal_strlit("reset");
    reveal_strlit("reset_daily_stop");
    reveal_strlit("set_capital");
    reveal_strlit("adjust_capital");
    reveal_strlit("enable_series");
    reveal_strlit("disable_series");
    reveal_strlit("set_param");
    reveal_strlit("arm_live");
    reveal_strlit("confirm_arm");
    reveal_strlit("disarm");
    assert("kill"@.len() != "reset"@.len());
    assert("kill"@.len() != "reset_daily_stop"@.len());
    assert("kill"@.len() != "set_capital"@.len());
    assert("kill"@.len() != "adjust_capital"@.len());
    assert("kill"@.len() != "enable_series"@.len());
    assert("kill"@.len() != "disable_series"@.len());
    assert("kill"@.len() != "set_param"@.len());
    assert("kill"@.len() != "arm_live"@.len());
    assert("kill"@.len() != "confirm_arm"@.len());
    assert("kill"@.len() != "disarm"@.len());
    assert("reset"@.len() != "reset_daily_stop"@.len());
    assert("reset"@.len() != "set_capital"@.len());
    assert("reset"@.len() != "adjust_capital"@.len());
    assert("reset"@.len() != "enable_series"@.len());
    assert("reset"@.len() != "disable_series"@.len());
    assert("reset"@.len() != "set_param"@.len());
    assert("reset"@.len() != "arm_live"@.len());
    assert("reset"@.len() != "confirm_arm"@.len());
    assert("reset"@.len() != "disarm"@.len());
    assert("reset_daily_stop"@.len() != "set_capital"@.len());
    assert("reset_daily_stop"@.len() != "adjust_capital"@.len());
    assert("reset_daily_stop"@.len() != "enable_series"@.len());
    assert("reset_daily_stop"@.len() != "disable_series"@.len());
    assert("reset_daily_stop"@.len() != "set_param"@.len());
    assert("reset_daily_stop"@.len() != "arm_live"@.len());
    assert("reset_daily_stop"@.len() != "confirm_arm"@.len());
    assert("reset_daily_stop"@.len() != "disarm"@.len());
    assert("set_capital"@.len() != "adjust_capital"@.len());
    assert("set_capital"@.len() != "enable_series"@.len());
    assert("set_capital"@.len() != "disable_series"@.len());
    assert("set_capital"@.len() != "set_param"@.len());
    assert("set_capital"@.len() != "arm_live"@.len());
    assert("set_capital"@[0] != "confirm_arm"@[0]);
    assert("set_capital"@.len() != "disarm"@.len());
    assert("adjust_capital"@.len() != "enable_series"@.len());
    assert("adjust_capital"@[0] != "disable_series"@[0]);
    assert("adjust_capital"@.len() != "set_param"@.len());
    assert("adjust_capital"@.len() != "arm_live"@.len());
    assert("adjust_capital"@.len() != "confirm_arm"@.len());
    assert("adjust_capital"@.len() != "disarm"@.len());
    assert("enable_series"@.len() != "disable_series"@.len());
    assert("enable_series"@.len() != "set_param"@.len());
    assert("enable_series"@.len() != "arm_live"@.len());
    assert("enable_series"@.len() != "confirm_arm"@.len());
    assert("enable_series"@.len() != "disarm"@.len());
    assert("disable_series"@.len() != "set_param"@.len());
    assert("disable_series"@.len() != "arm_live"@.len());
    assert("disable_series"@.len() != "confirm_arm"@.len());
    assert("disable_series"@.len() != "disarm"@.len());
    assert("set_param"@.len() != "arm_live"@.len());
    assert("set_param"@.len() != "confirm_arm"@.len());
    assert("set_param"@.len() != "disarm"@.len());
    assert("arm_live"@.len() != "confirm_arm"@.len());
    assert("arm_live"@.len() != "disarm"@.len());
    assert("confirm_arm"@.len() != "disarm"@.len());
}

/// The audit of a command tells what came of it: whether the session is halted after a kill or a
/// reset, whether arming is pending after its begin, and whether the session is armed after its
/// confirmation.
pub proof fn law_audit_tells_what_came_of_it(phrase: String, after: PlaneView)
    ensures
        audit_detail(DashboardCommand::Kill, after) == "halted=true"@ <==> after.state.halted,
        audit_detail(DashboardCommand::Kill, after) == "halted=false"@ <==> !after.state.halted,
        audit_detail(DashboardCommand::Reset, after) == audit_detail(
            DashboardCommand::Kill,
            after,
        ),
        audit_detail(DashboardCommand::ArmLiveBegin, after) == "arm begin (pending=true)"@
            <==> after.arming is PendingConfirm,
        audit_detail(DashboardCommand::ArmLiveBegin, after) == "arm begin (pending=false)"@
            <==> !(after.arming is PendingConfirm),
        audit_detail(DashboardCommand::ArmLiveConfirm { phrase }, after)
            == "arm confirm (armed=true)"@ <==> after.state.session_armed,
        audit_detail(DashboardCommand::ArmLiveConfirm { phrase }, after)
            == "arm confirm (armed=false)"@ <==> !after.state.session_armed,
{
    reveal_strlit("halted=");
    reveal_strlit("true");
    reveal_strlit("false");
    reveal_strlit(")");
    reveal_strlit("halted=true");
    reveal_strlit("halted=false");
    reveal_strlit("arm begin (pending=");
    reveal_strlit("arm confirm (armed=");
    reveal_strlit("arm begin (pending=true)");
    reveal_strlit("arm begin (pending=false)");
    reveal_strlit("arm confirm (armed=true)");
    reveal_strlit("arm confirm (armed=false)");
    assert("halted="@ + "true"@ == "halted=true"@);
    assert("halted="@ + "false"@ == "halted=false"@);
    assert("halted=true"@.len() != "halted=false"@.len());
    assert("arm begin (pending="@ + "true"@ + ")"@ == "arm begin (pending=true)"@);
    assert("arm begin (pending="@ + "false"@ + ")"@ == "arm begin (pending=false)"@);
    assert("arm begin (pending=true)"@.len() != "arm begin (pending=false)"@.len());
    assert("arm confirm (armed="@ + "true"@ + ")"@ == "arm confirm (armed=true)"@);
    assert("arm confirm (armed="@ + "false"@ + ")"@ == "arm confirm (armed=false)"@);
    assert("arm confirm (armed=true)"@.len() != "arm confirm (armed=false)"@.len());
}

/// The audit of a command that takes something tells what it took.
pub proof fn law_audit_tells_what_was_taken(
    amount: Amount,
    delta: Figure,
    series: Option<String>,
    key: String,
    value: String,
    after: PlaneView,
)
    ensures
        audit_detail(DashboardCommand::SetPaperCapital(amount), after) == "set capital to "@
            + amount.text_spec(),
        audit_detail(DashboardCommand::AdjustPaperCapital(delta), after) == "adjust capital by "@
            + delta.text_spec(),
        audit_detail(DashboardCommand::EnableSeries(key), after) == "enable series "@ + key@,
        audit_detail(DashboardCommand::DisableSeries(key), after) == "disable series "@ + key@,
        audit_detail(DashboardCommand::SetParam { series, key, value }, after) == "set "@ + key@
            + "="@ + value@ + (" for "@ + (if series is Some {
            series->0@
        } else {
            "all"@
        })),
{
}

/// Parameters that were set stand in order: those of every series before those of one, those of
/// one series in the order of the series, and those of one scope by key. Setting another one
/// keeps the order and every other parameter.
pub proof fn law_set_params_stay_in_order(
    s: Overrides,
    k: (Option<Series>, Seq<char>),
    v: Seq<char>,
    i: int,
    j: int,
)
    requires
        in_order(s),
        0 <= i < j < with_override(s, k, v).len(),
    ensures
        ({
            let t = with_override(s, k, v);
            let (a, b) = (t[i].0, t[j].0);
            &&& (a.0 is None && b.0 is Some) || (a.0 is Some && b.0 is Some && a.0->0.rank_spec()
                < b.0->0.rank_spec()) || (a.0 == b.0 && text::text_before(a.1, b.1))
            &&& t.contains((k, v))
            &&& forall|e: ((Option<Series>, Seq<char>), Seq<char>)|
                e.0 != k ==> (#[trigger] t.contains(e) <==> s.contains(e))
        }),
{
    lemma_with_override(s, k, v);
    let t = with_override(s, k, v);
    assert(override_before(t[i].0, t[j].0));
}

} // verus!
