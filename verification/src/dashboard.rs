//! What the dashboard session shows, and how it carries a decision out.

use vstd::prelude::*;

use crate::control::{
    ControlAudit, ControlEvent, ControlOutcome, ControlStateSnapshot, Decision,
    RuntimeControlState, VenueAction,
};
use crate::decimal::Amount;
use crate::text;
use crate::types::Series;

verus! {

/// The configured values that the dashboard shows, as texts where they are numbers of the
/// configuration's own kinds.
#[derive(Clone, Debug)]
pub struct ShownConfig {
    /// The paper venue's starting capital.
    pub starting_capital: Amount,
    /// The daily loss stop.
    pub daily_stop_loss: String,
    /// The cap on open notional.
    pub max_open_notional: String,
    /// The age at which a feed is stale, milliseconds.
    pub feed_staleness_ms: i64,
    /// The bound on a sane price.
    pub sanity_bound: String,
    /// The fee rate of the paper venue.
    pub default_fee_rate: String,
    /// The makers' share of the fees.
    pub maker_rebate_share: String,
    /// Whether takers get a rebate.
    pub taker_rebate_enabled: bool,
    /// The last seconds without at-the-money quotes.
    pub no_atm_final_secs: String,
    /// The last seconds without passive quotes.
    pub no_passive_final_secs: String,
    /// The last seconds in which the late taker runs.
    pub late_window_tau_secs: String,
    /// The at-the-money band.
    pub atm_band: String,
    /// The least time between two quotes.
    pub min_requote_interval_ms: String,
    /// The time that a cancel takes.
    pub cancel_rtt_secs: String,
}

/// The parameters as the dashboard shows them.
#[derive(Clone, Debug)]
pub struct ParamsView {
    /// The paper capital.
    pub paper_capital: Option<Amount>,
    /// Names and values, in order.
    pub entries: Vec<(&'static str, String)>,
}

/// A name with its value.
pub open spec fn is_entry(e: (&'static str, String), name: Seq<char>, value: Seq<char>) -> bool {
    e.0@ == name && e.1@ == value
}

/// The parameters as the dashboard shows them.
pub fn params_view(c: &ShownConfig) -> (r: ParamsView)
    ensures
        r.paper_capital == Some(c.starting_capital),
        r.entries@.len() == 13,
        is_entry(r.entries@[0], "risk.daily_stop_loss"@, c.daily_stop_loss@),
        is_entry(r.entries@[1], "risk.max_open_notional"@, c.max_open_notional@),
        is_entry(
            r.entries@[2],
            "risk.feed_staleness_ms"@,
            text::signed_digits(c.feed_staleness_ms as int),
        ),
        is_entry(r.entries@[3], "risk.sanity_bound"@, c.sanity_bound@),
        is_entry(r.entries@[4], "paper.default_fee_rate"@, c.default_fee_rate@),
        is_entry(r.entries@[5], "paper.maker_rebate_share"@, c.maker_rebate_share@),
        is_entry(
            r.entries@[6],
            "paper.taker_rebate_enabled"@,
            crate::control::bool_text(c.taker_rebate_enabled),
        ),
        is_entry(r.entries@[7], "engine.no_atm_final_secs"@, c.no_atm_final_secs@),
        is_entry(r.entries@[8], "engine.no_passive_final_secs"@, c.no_passive_final_secs@),
        is_entry(r.entries@[9], "engine.late_window_tau_secs"@, c.late_window_tau_secs@),
        is_entry(r.entries@[10], "engine.atm_band"@, c.atm_band@),
        is_entry(r.entries@[11], "engine.min_requote_interval_ms"@, c.min_requote_interval_ms@),
        is_entry(r.entries@[12], "engine.cancel_rtt_secs"@, c.cancel_rtt_secs@),
{
    let mut entries: Vec<(&'static str, String)> = Vec::new();
    entries.push(("risk.daily_stop_loss", c.daily_stop_loss.clone()));
    entries.push(("risk.max_open_notional", c.max_open_notional.clone()));
    entries.push(("risk.feed_staleness_ms", text::i64_text(c.feed_staleness_ms)));
    entries.push(("risk.sanity_bound", c.sanity_bound.clone()));
    entries.push(("paper.default_fee_rate", c.default_fee_rate.clone()));
    entries.push(("paper.maker_rebate_share", c.maker_rebate_share.clone()));
    entries.push(
        (
            "paper.taker_rebate_enabled",
            crate::control::bool_word(c.taker_rebate_enabled).to_owned(),
        ),
    );
    entries.push(("engine.no_atm_final_secs", c.no_atm_final_secs.clone()));
    entries.push(("engine.no_passive_final_secs", c.no_passive_final_secs.clone()));
    entries.push(("engine.late_window_tau_secs", c.late_window_tau_secs.clone()));
    entries.push(("engine.atm_band", c.atm_band.clone()));
    entries.push(("engine.min_requote_interval_ms", c.min_requote_interval_ms.clone()));
    entries.push(("engine.cancel_rtt_secs", c.cancel_rtt_secs.clone()));
    ParamsView { paper_capital: Some(c.starting_capital), entries }
}

/// The series of a session: the one that is asked for, else those that are enabled; at least
/// one.
pub fn series_to_trade(filter: Option<Series>, enabled: &Vec<Series>) -> (r: Result<
    Vec<Series>,
    String,
>)
    ensures
        match filter {
            Some(s) => r is Ok && r->Ok_0@ == seq![s],
            None => if enabled@.len() > 0 {
                r is Ok && r->Ok_0@ == enabled@
            } else {
                r is Err && r->Err_0@
                    == "no enabled series to trade (enable some in config or pass --series)"@
            },
        },
{
    match filter {
        Some(s) => {
            let mut one: Vec<Series> = Vec::new();
            one.push(s);
            assert(one@ =~= seq![s]);
            Ok(one)
        },
        None => if enabled.len() > 0 {
            let mut all: Vec<Series> = Vec::new();
            let mut i: usize = 0;
            while i < enabled.len()
                invariant
                    i <= enabled@.len(),
                    all@ == enabled@.subrange(0, i as int),
                decreases enabled.len() - i,
            {
                all.push(enabled[i]);
                i = i + 1;
                assert(all@ =~= enabled@.subrange(0, i as int));
            }
            assert(all@ =~= enabled@);
            Ok(all)
        } else {
            Err("no enabled series to trade (enable some in config or pass --series)".to_owned())
        },
    }
}

/// Whether an action changes the paper capital.
pub open spec fn changes_capital(action: Option<VenueAction>) -> bool {
    match action {
        Some(VenueAction::SetCapital(_)) => true,
        Some(VenueAction::AdjustCapital(_)) => true,
        _ => false,
    }
}

/// The capital that the bus is told of after a venue action, where it changed and the venue has
/// told it.
pub fn capital_event(action: Option<VenueAction>, capital: Option<Amount>) -> (r: Option<Amount>)
    ensures
        r == (if changes_capital(action) {
            capital
        } else {
            None
        }),
{
    match action {
        Some(VenueAction::SetCapital(_)) | Some(VenueAction::AdjustCapital(_)) => capital,
        _ => None,
    }
}

/// The answer with the capital that the venue has told.
pub fn with_capital(outcome: ControlOutcome, capital: Option<Amount>) -> (r: ControlOutcome)
    ensures
        r.kind == outcome.kind,
        r.error == outcome.error,
        r.state == (ControlStateSnapshot { paper_capital: capital, ..outcome.state }),
{
    let mut out = outcome;
    out.state.paper_capital = capital;
    out
}

/// What goes to the journal or onto the screen for a decision.
#[derive(Clone, Copy, PartialEq, Eq, Structural, Debug)]
pub enum BusRecord {
    /// One of the decision's events.
    Event(ControlEvent),
    /// The decision's audit.
    Audit,
    /// The capital that the venue now has.
    CapitalSet(Amount),
}

/// A decision's events as records.
pub open spec fn event_records(events: Seq<ControlEvent>) -> Seq<BusRecord> {
    events.map_values(|e: ControlEvent| BusRecord::Event(e))
}

/// The record of a capital that changed, where it did.
pub open spec fn capital_records(action: Option<VenueAction>, capital: Option<Amount>) -> Seq<
    BusRecord,
> {
    match capital {
        Some(amount) => if changes_capital(action) {
            seq![BusRecord::CapitalSet(amount)]
        } else {
            Seq::empty()
        },
        None => Seq::empty(),
    }
}

/// What follows a decision once the venue has done its part.
#[derive(Clone, Debug)]
pub struct DecisionEffects {
    /// What is journaled, in order.
    pub journal: Vec<BusRecord>,
    /// What is shown, in order.
    pub shown: Vec<BusRecord>,
    /// The audit that the journal gets.
    pub audit: ControlAudit,
    /// Whether the wallet is read again at once.
    pub resample: bool,
    /// The answer.
    pub outcome: ControlOutcome,
}

/// What follows a decision once the venue has done its part and told its capital: every event
/// and the audit are journaled, the events are shown and the audit is not, and a capital that
/// changed is journaled and shown last. The answer carries the capital.
pub fn carry_out(decision: Decision, capital: Option<Amount>) -> (r: DecisionEffects)
    ensures
        r.journal@ == event_records(decision.events@).push(BusRecord::Audit) + capital_records(
            decision.venue_action,
            capital,
        ),
        r.shown@ == event_records(decision.events@) + capital_records(
            decision.venue_action,
            capital,
        ),
        r.audit == decision.audit,
        r.resample == (capital_records(decision.venue_action, capital).len() > 0),
        r.outcome.kind == decision.outcome.kind,
        r.outcome.error == decision.outcome.error,
        r.outcome.state == (ControlStateSnapshot {
            paper_capital: capital,
            ..decision.outcome.state
        }),
{
    let mut journal: Vec<BusRecord> = Vec::new();
    let mut shown: Vec<BusRecord> = Vec::new();
    let mut i: usize = 0;
    while i < decision.events.len()
        invariant
            i <= decision.events@.len(),
            journal@ == event_records(decision.events@.subrange(0, i as int)),
            shown@ == event_records(decision.events@.subrange(0, i as int)),
        decreases decision.events.len() - i,
    {
        journal.push(BusRecord::Event(decision.events[i]));
        shown.push(BusRecord::Event(decision.events[i]));
        i = i + 1;
        assert(journal@ =~= event_records(decision.events@.subrange(0, i as int)));
        assert(shown@ =~= event_records(decision.events@.subrange(0, i as int)));
    }
    assert(decision.events@.subrange(0, i as int) =~= decision.events@);
    journal.push(BusRecord::Audit);
    let resample = match capital_event(decision.venue_action, capital) {
        Some(amount) => {
            journal.push(BusRecord::CapitalSet(amount));
            shown.push(BusRecord::CapitalSet(amount));
            true
        },
        None => false,
    };
    assert(journal@ =~= event_records(decision.events@).push(BusRecord::Audit) + capital_records(
        decision.venue_action,
        capital,
    ));
    assert(shown@ =~= event_records(decision.events@) + capital_records(
        decision.venue_action,
        capital,
    ));
    DecisionEffects {
        journal,
        shown,
        audit: decision.audit,
        resample,
        outcome: with_capital(decision.outcome, capital),
    }
}

/// What reaches the session's loop.
#[derive(Clone, Copy, PartialEq, Eq, Structural, Debug)]
pub enum LoopInput {
    /// An event on the bus.
    Bus {
        /// Whether it announces a window.
        window: bool,
    },
    /// The venue's update of an order.
    VenueOrder,
    /// The venue's report of a fill.
    VenueFill,
    /// The venue's connection is up or down.
    VenueConnection(bool),
    /// A command.
    Request,
    /// It is time to quote.
    QuoteTick,
    /// It is time to read the wallet.
    SampleTick,
    /// It is time to read the model.
    Heartbeat,
    /// The operator stops the session.
    Stop,
    /// A driver has ended.
    DriverEnded,
}

/// What the session does about it.
#[derive(Clone, Copy, PartialEq, Eq, Structural, Debug)]
pub enum LoopAction {
    /// Journal the event.
    Journal,
    /// Tell the feed of the books of the window.
    ForwardWindow,
    /// Tell the venue.
    TellVenue,
    /// Show the event.
    Show,
    /// Tell the quoter.
    TellQuoter,
    /// Tell the model.
    TellModel,
    /// Fold the event into the inventory, and show what comes of it.
    FoldInventory,
    /// Show whether the venue is connected.
    ShowConnection(bool),
    /// Decide the command and carry the decision out.
    Decide,
    /// Cancel every order and quote anew.
    Requote,
    /// Read the wallet and the ledger, and show them.
    SampleWallet,
    /// Read the model and publish what it says.
    ReadModel,
    /// Cancel every order.
    CancelAll,
    /// Shut the venue down.
    ShutVenueDown,
    /// Leave the loop.
    Close,
}

/// What a session does about what reaches its loop, in order.
pub open spec fn loop_plan(input: LoopInput, with_model: bool, halted: bool) -> Seq<LoopAction> {
    match input {
        LoopInput::Bus { window } => seq![LoopAction::Journal] + (if window {
            seq![LoopAction::ForwardWindow]
        } else {
            Seq::empty()
        }) + seq![LoopAction::TellVenue, LoopAction::Show, LoopAction::TellQuoter] + (
        if with_model {
            seq![LoopAction::TellModel]
        } else {
            Seq::empty()
        }) + seq![LoopAction::FoldInventory],
        LoopInput::VenueOrder => seq![LoopAction::Show],
        LoopInput::VenueFill => seq![LoopAction::Show, LoopAction::FoldInventory],
        LoopInput::VenueConnection(up) => seq![LoopAction::ShowConnection(up)],
        LoopInput::Request => seq![LoopAction::Decide],
        LoopInput::QuoteTick => if halted {
            Seq::empty()
        } else {
            seq![LoopAction::Requote]
        },
        LoopInput::SampleTick => seq![LoopAction::SampleWallet],
        LoopInput::Heartbeat => if with_model {
            seq![LoopAction::ReadModel]
        } else {
            Seq::empty()
        },
        LoopInput::Stop => seq![
            LoopAction::CancelAll,
            LoopAction::ShutVenueDown,
            LoopAction::Close,
        ],
        LoopInput::DriverEnded => seq![LoopAction::Close],
    }
}

/// What a session does about what reaches its loop, in order.
pub fn plan(input: LoopInput, with_model: bool, control: &RuntimeControlState) -> (r: Vec<
    LoopAction,
>)
    requires
        control@.wf(),
    ensures
        r@ == loop_plan(input, with_model, control@.halted),
{
    let mut out: Vec<LoopAction> = Vec::new();
    match input {
        LoopInput::Bus { window } => {
            out.push(LoopAction::Journal);
            if window {
                out.push(LoopAction::ForwardWindow);
            }
            out.push(LoopAction::TellVenue);
            out.push(LoopAction::Show);
            out.push(LoopAction::TellQuoter);
            if with_model {
                out.push(LoopAction::TellModel);
            }
            out.push(LoopAction::FoldInventory);
        },
        LoopInput::VenueOrder => out.push(LoopAction::Show),
        LoopInput::VenueFill => {
            out.push(LoopAction::Show);
            out.push(LoopAction::FoldInventory);
        },
        LoopInput::VenueConnection(up) => out.push(LoopAction::ShowConnection(up)),
        LoopInput::Request => out.push(LoopAction::Decide),
        LoopInput::QuoteTick => if !control.is_halted() {
            out.push(LoopAction::Requote);
        },
        LoopInput::SampleTick => out.push(LoopAction::SampleWallet),
        LoopInput::Heartbeat => if with_model {
            out.push(LoopAction::ReadModel);
        },
        LoopInput::Stop => {
            out.push(LoopAction::CancelAll);
            out.push(LoopAction::ShutVenueDown);
            out.push(LoopAction::Close);
        },
        LoopInput::DriverEnded => out.push(LoopAction::Close),
    }
    assert(out@ =~= loop_plan(input, with_model, control@.halted));
    out
}

/// While trading is halted, nothing that reaches the loop makes it quote.
pub proof fn law_halted_session_does_not_quote(input: LoopInput, with_model: bool)
    ensures
        !loop_plan(input, with_model, true).contains(LoopAction::Requote),
{
}

/// A session without a model never turns to one.
pub proof fn law_no_model_is_never_asked(input: LoopInput, halted: bool)
    ensures
        !loop_plan(input, false, halted).contains(LoopAction::TellModel),
        !loop_plan(input, false, halted).contains(LoopAction::ReadModel),
{
}

/// Every event on the bus is journaled, and before anything else is done about it.
pub proof fn law_bus_event_is_journaled_first(window: bool, with_model: bool, halted: bool)
    ensures
        ({
            let plan = loop_plan(LoopInput::Bus { window }, with_model, halted);
            plan.len() > 0 && plan[0] == LoopAction::Journal
        }),
{
}

/// Whatever a decision shows is also journaled.
pub proof fn law_shown_is_journaled(
    events: Seq<ControlEvent>,
    action: Option<VenueAction>,
    capital: Option<Amount>,
    record: BusRecord,
)
    requires
        (event_records(events) + capital_records(action, capital)).contains(record),
    ensures
        (event_records(events).push(BusRecord::Audit) + capital_records(action, capital)).contains(
            record,
        ),
{
    let shown = event_records(events) + capital_records(action, capital);
    let journal = event_records(events).push(BusRecord::Audit) + capital_records(action, capital);
    let i = choose|i: int| 0 <= i < shown.len() && shown[i] == record;
    if i < events.len() {
        assert(journal[i] == record);
    } else {
        assert(journal[i + 1] == record);
    }
}

/// What each input brings about. An event on the bus goes to the venue before the quoter hears of
/// it, and to the inventory last; a window's goes to the feed too. A fill is shown and folded in;
/// an order is only shown. A stop cancels everything before the venue is shut down, and closes
/// last.
pub proof fn law_what_each_input_brings(window: bool, with_model: bool, halted: bool, up: bool)
    ensures
        ({
            let bus = loop_plan(LoopInput::Bus { window }, with_model, halted);
            let venue: int = if window {
                2
            } else {
                1
            };
            &&& bus.contains(LoopAction::ForwardWindow) <==> window
            &&& bus.contains(LoopAction::TellModel) <==> with_model
            &&& bus[venue] == LoopAction::TellVenue
            &&& bus[venue + 1] == LoopAction::Show
            &&& bus[venue + 2] == LoopAction::TellQuoter
            &&& bus.last() == LoopAction::FoldInventory
            &&& bus.len() == venue + 4 + (if with_model {
                1int
            } else {
                0
            })
            &&& !bus.contains(LoopAction::Requote) && !bus.contains(LoopAction::Close)
        }),
        loop_plan(LoopInput::VenueOrder, with_model, halted) == seq![LoopAction::Show],
        loop_plan(LoopInput::VenueFill, with_model, halted).contains(LoopAction::Show),
        loop_plan(LoopInput::VenueFill, with_model, halted).contains(LoopAction::FoldInventory),
        loop_plan(LoopInput::VenueFill, with_model, halted).len() == 2,
        loop_plan(LoopInput::VenueConnection(up), with_model, halted) == seq![
            LoopAction::ShowConnection(up),
        ],
        loop_plan(LoopInput::Request, with_model, halted) == seq![LoopAction::Decide],
        loop_plan(LoopInput::QuoteTick, with_model, halted).contains(LoopAction::Requote)
            <==> !halted,
        loop_plan(LoopInput::SampleTick, with_model, halted) == seq![LoopAction::SampleWallet],
        loop_plan(LoopInput::Heartbeat, with_model, halted).contains(LoopAction::ReadModel)
            <==> with_model,
        loop_plan(LoopInput::Stop, with_model, halted) == seq![
            LoopAction::CancelAll,
            LoopAction::ShutVenueDown,
            LoopAction::Close,
        ],
        loop_plan(LoopInput::DriverEnded, with_model, halted) == seq![LoopAction::Close],
{
    let bus = loop_plan(LoopInput::Bus { window }, with_model, halted);
    if window {
        assert(bus[1] == LoopAction::ForwardWindow);
    }
    if with_model {
        assert(bus[bus.len() - 2] == LoopAction::TellModel);
        assert(loop_plan(LoopInput::Heartbeat, with_model, halted)[0] == LoopAction::ReadModel);
    }
    let fill = loop_plan(LoopInput::VenueFill, with_model, halted);
    assert(fill[0] == LoopAction::Show && fill[1] == LoopAction::FoldInventory);
    if !halted {
        assert(loop_plan(LoopInput::QuoteTick, with_model, halted)[0] == LoopAction::Requote);
    }
}

/// A capital is put on the bus where the venue told one and the action set or adjusted it, and
/// only there.
pub proof fn law_capital_is_told_where_it_changed(
    action: Option<VenueAction>,
    capital: Option<Amount>,
)
    ensures
        changes_capital(action) <==> (action matches Some(a) && (a is SetCapital || a
            is AdjustCapital)),
        capital_records(action, capital).len() <= 1,
        capital_records(action, capital).len() == 1 <==> capital is Some && (
        action matches Some(a) && (a is SetCapital || a is AdjustCapital)),
        capital_records(action, capital).len() == 1 ==> capital_records(action, capital)[0]
            == BusRecord::CapitalSet(capital->0),
{
}

/// Every event of a decision is put on the bus, in its order.
pub proof fn law_every_event_is_put_on_the_bus(events: Seq<ControlEvent>, i: int)
    requires
        0 <= i < events.len(),
    ensures
        event_records(events).len() == events.len(),
        event_records(events)[i] == BusRecord::Event(events[i]),
{
}

} // verus!
