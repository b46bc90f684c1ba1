//! The control plane, its HTTP endpoints, and what the dashboard makes of them.

use updown_bot::cli::ControlSub;
use updown_bot::control::{
    affected_series, BreakerKind, CommandOrigin, ControlAudit, ControlEvent, ControlPlane,
    DashboardCommand, Decision, OutcomeKind, VenueAction, PENDING_TTL_MS,
};
use updown_bot::control_client::route;
use updown_bot::dashboard::{
    capital_event, carry_out, params_view, plan, series_to_trade, with_capital, BusRecord,
    LoopAction, LoopInput, ShownConfig,
};
use updown_bot::decimal::{Amount, Figure};
use updown_bot::json::pretty;
use updown_bot::quoting::Quoter;
use updown_bot::types::{
    Id, Level, MarketInfo, ResolutionKind, Series, TopOfBook, WindowId, WindowLifecycle,
};

const PHRASE: &str = "I understand that this trades real money";

fn armed_gates_plane() -> ControlPlane {
    ControlPlane::new(&Series::all(), true, true, PHRASE.to_owned())
}

fn paper_plane() -> ControlPlane {
    ControlPlane::new(&Series::all(), false, false, PHRASE.to_owned())
}

/// The bounds that the configuration sets for the parameters these tests change.
fn problem(key: &str, value: &str) -> Option<String> {
    match key {
        "min_edge" => {
            let v = Amount::parse(value).unwrap();
            if v.less(&Amount::parse("0.01").unwrap()) {
                Some("min_edge must be at least 0.01".to_owned())
            } else {
                None
            }
        },
        _ => Some(format!("`{key}` requires a restart")),
    }
}

fn refusals(cmd: &DashboardCommand) -> Vec<Option<String>> {
    match cmd {
        DashboardCommand::SetParam { series, key, value } => match affected_series(series) {
            Some(all) => all.iter().map(|_| problem(key, value)).collect(),
            None => Vec::new(),
        },
        _ => Vec::new(),
    }
}

fn decide_at(p: &mut ControlPlane, cmd: DashboardCommand, origin: CommandOrigin, ms: i64) -> Decision {
    let r = refusals(&cmd);
    p.decide(&cmd, origin, ms, &r)
}

fn decide(p: &mut ControlPlane, cmd: DashboardCommand) -> Decision {
    decide_at(p, cmd, CommandOrigin::Cli, 1_000)
}

fn audit(d: &Decision) -> &ControlAudit {
    &d.audit
}

fn set_param(series: Option<&str>, key: &str, value: &str) -> DashboardCommand {
    DashboardCommand::SetParam {
        series: series.map(|s| s.to_owned()),
        key: key.to_owned(),
        value: value.to_owned(),
    }
}

fn confirm(phrase: &str) -> DashboardCommand {
    DashboardCommand::ArmLiveConfirm { phrase: phrase.to_owned() }
}

fn amount(text: &str) -> Amount {
    Amount::parse(text).unwrap()
}

fn figure(text: &str) -> Figure {
    Figure::parse(text).unwrap()
}

fn top(bid: &str, ask: &str) -> TopOfBook {
    let size = amount("100");
    TopOfBook {
        bid: Some(Level { price: amount(bid), size }),
        ask: Some(Level { price: amount(ask), size }),
    }
}

fn market() -> MarketInfo {
    MarketInfo {
        window: WindowId { series: btc5(), open_ms: 0 },
        event_slug: "btc-updown-5m-test".to_owned(),
        condition_id: Id::new("0x11"),
        up_token: Id::new("1"),
        down_token: Id::new("2"),
        close_ms: 300_000,
        tick_size: amount("0.01"),
        fee_rate: figure("0.07"),
        rebate_rate: figure("0.2"),
        fees_enabled: true,
        taker_only: true,
        min_order_size: amount("5"),
        neg_risk: false,
        resolution_kind: ResolutionKind::ChainlinkDataStream,
        resolution_raw: "https://data.chain.link/streams/btc-usd".to_owned(),
    }
}

fn btc5() -> Series {
    Series::parse("BTC-5m").unwrap()
}

#[test]
fn kill_halts_and_resets_resume_and_both_audit() {
    let mut p = paper_plane();
    let d = decide(&mut p, DashboardCommand::Kill);
    assert!(d.outcome.accepted());
    assert!(d.outcome.state.halted);
    assert_eq!(d.venue_action, Some(VenueAction::CancelAll));
    assert!(p.state.is_halted());
    assert!(audit(&d).accepted);
    assert_eq!(audit(&d).kind, "kill");
    assert_eq!(
        d.events,
        vec![
            ControlEvent::Kill,
            ControlEvent::BreakerTripped(BreakerKind::Manual),
            ControlEvent::CancelAllIssued(BreakerKind::Manual),
        ]
    );

    let d = decide(&mut p, DashboardCommand::Reset);
    assert!(d.outcome.accepted());
    assert!(!d.outcome.state.halted);
    assert!(!p.state.is_halted());
    assert_eq!(audit(&d).kind, "reset");
}

#[test]
fn a_change_of_capital_is_audited_as_it_was_written() {
    let mut p = paper_plane();
    let d = decide(&mut p, DashboardCommand::AdjustPaperCapital(figure("10.50")));
    assert_eq!(audit(&d).detail, "adjust capital by 10.50");
    assert_eq!(d.venue_action, Some(VenueAction::AdjustCapital(figure("10.50"))));
    let d = decide(&mut p, DashboardCommand::SetPaperCapital(amount("10.50")));
    assert_eq!(audit(&d).detail, "set capital to 10.5");
}

#[test]
fn arming_without_its_gates_is_refused_at_any_time() {
    let mut p = paper_plane();
    let before = p.state.session_armed();
    let d = decide_at(
        &mut p,
        DashboardCommand::ArmLiveBegin,
        CommandOrigin::Dashboard,
        i64::MAX,
    );
    assert!(!d.outcome.accepted());
    assert_eq!(p.state.session_armed(), before);
}

#[test]
fn reset_daily_stop_emits_targeted_control_event() {
    let mut p = paper_plane();
    let d = decide(&mut p, DashboardCommand::ResetDailyStop);
    assert!(d.outcome.accepted());
    assert!(d.events.iter().any(|e| matches!(e, ControlEvent::DailyStopReset)));
    assert_eq!(audit(&d).kind, "reset_daily_stop");
}

#[test]
fn enable_disable_series_updates_state_and_rejects_unknown() {
    let mut p = paper_plane();
    let d = decide(&mut p, DashboardCommand::DisableSeries("BTC-5m".to_owned()));
    assert!(d.outcome.accepted());
    assert!(!p.state.is_series_enabled(btc5()));
    assert_eq!(d.events, vec![ControlEvent::SeriesDisabled(btc5())]);
    let d = decide(&mut p, DashboardCommand::EnableSeries("BTC-5m".to_owned()));
    assert!(d.outcome.accepted());
    assert!(p.state.is_series_enabled(btc5()));
    // Enabling it again changes nothing.
    let d = decide(&mut p, DashboardCommand::EnableSeries("BTC-5m".to_owned()));
    assert!(d.outcome.accepted());
    assert!(d.events.is_empty());

    let d = decide(&mut p, DashboardCommand::DisableSeries("XRP-9m".to_owned()));
    assert_eq!(d.outcome.kind, OutcomeKind::Rejected);
    assert!(!audit(&d).accepted);
    assert_eq!(d.outcome.error.as_deref(), Some("unknown series key `XRP-9m`"));
}

#[test]
fn set_param_applies_in_range_and_records_override() {
    let mut p = paper_plane();
    let d = decide(&mut p, set_param(Some("BTC-5m"), "min_edge", "0.02"));
    assert!(d.outcome.accepted());
    assert_eq!(p.state.param_override(btc5(), "min_edge").as_deref(), Some("0.02"));
    assert!(
        d.outcome.state.param_overrides.iter().any(|o| o.key == "min_edge" && o.value == "0.02")
    );
}

#[test]
fn set_param_out_of_range_rejected_and_state_unchanged() {
    let mut p = paper_plane();
    let d = decide(&mut p, set_param(None, "min_edge", "0.005"));
    assert_eq!(d.outcome.kind, OutcomeKind::Rejected);
    assert!(d.outcome.state.param_overrides.is_empty());
    assert!(!audit(&d).accepted);
    // A value for all series is refused with the key of the first series that it breaks.
    let first = Series::all()[0].key();
    assert_eq!(d.outcome.error, Some(format!("[{first}] min_edge must be at least 0.01")));
}

#[test]
fn set_param_structural_key_rejected() {
    let mut p = paper_plane();
    let d = decide(&mut p, set_param(None, "touch_size", "20"));
    assert_eq!(d.outcome.kind, OutcomeKind::Rejected);
    assert!(d.outcome.error.unwrap().contains("requires a restart"));
}

#[test]
fn set_param_for_an_unknown_series_is_rejected() {
    let mut p = paper_plane();
    let d = decide(&mut p, set_param(Some("XRP-9m"), "min_edge", "0.02"));
    assert_eq!(d.outcome.kind, OutcomeKind::Rejected);
    assert_eq!(d.outcome.error.as_deref(), Some("unknown series key `XRP-9m`"));
}

#[test]
fn a_series_override_wins_over_a_global_one() {
    let mut p = paper_plane();
    decide(&mut p, set_param(None, "min_edge", "0.02"));
    decide(&mut p, set_param(Some("BTC-5m"), "min_edge", "0.03"));
    assert_eq!(p.state.param_override(btc5(), "min_edge").as_deref(), Some("0.03"));
    let eth = Series::parse("ETH-5m").unwrap();
    assert_eq!(p.state.param_override(eth, "min_edge").as_deref(), Some("0.02"));
    assert_eq!(p.state.param_override(eth, "max_edge"), None);
    assert_eq!(
        p.state.overrides_for(btc5()),
        vec![
            ("min_edge".to_owned(), "0.02".to_owned()),
            ("min_edge".to_owned(), "0.03".to_owned()),
        ]
    );
}

#[test]
fn arm_refused_when_config_gate_missing() {
    let mut p = ControlPlane::new(&Series::all(), false, true, PHRASE.to_owned());
    let d = decide(&mut p, DashboardCommand::ArmLiveBegin);
    assert_eq!(d.outcome.kind, OutcomeKind::Conflict);
    assert!(!d.outcome.state.arming.can_arm);
    assert!(!d.outcome.state.arming.pending);
    assert_eq!(
        d.outcome.error.as_deref(),
        Some("cannot arm: live trading is not enabled in config (gate 1)")
    );
}

#[test]
fn arm_refused_when_env_gate_missing() {
    let mut p = ControlPlane::new(&Series::all(), true, false, PHRASE.to_owned());
    let d = decide(&mut p, DashboardCommand::ArmLiveBegin);
    assert_eq!(d.outcome.kind, OutcomeKind::Conflict);
    assert!(!d.outcome.state.arming.can_arm);
    assert!(!p.state.session_armed());
}

#[test]
fn full_arm_then_disarm_round_trip() {
    let mut p = armed_gates_plane();
    let d = decide_at(&mut p, DashboardCommand::ArmLiveBegin, CommandOrigin::Dashboard, 1_000);
    assert!(d.outcome.accepted());
    assert!(d.outcome.state.arming.pending);
    assert!(!d.outcome.state.arming.session_armed);
    let d = decide_at(&mut p, confirm(PHRASE), CommandOrigin::Dashboard, 2_000);
    assert!(d.outcome.accepted());
    assert!(d.outcome.state.arming.session_armed);
    assert!(p.state.session_armed());
    let d = decide_at(&mut p, DashboardCommand::Disarm, CommandOrigin::Dashboard, 3_000);
    assert!(d.outcome.accepted());
    assert!(!p.state.session_armed());
}

#[test]
fn confirm_refused_wrong_phrase() {
    let mut p = armed_gates_plane();
    decide_at(&mut p, DashboardCommand::ArmLiveBegin, CommandOrigin::Cli, 1_000);
    let d = decide_at(&mut p, confirm("wrong"), CommandOrigin::Cli, 2_000);
    assert_eq!(d.outcome.kind, OutcomeKind::Rejected);
    assert!(!p.state.session_armed());
}

#[test]
fn confirm_refused_after_nonce_expiry() {
    let mut p = armed_gates_plane();
    decide_at(&mut p, DashboardCommand::ArmLiveBegin, CommandOrigin::Cli, 1_000);
    let d = decide_at(&mut p, confirm(PHRASE), CommandOrigin::Cli, 1_000 + PENDING_TTL_MS + 1);
    assert_eq!(d.outcome.kind, OutcomeKind::Conflict);
    assert!(!p.state.session_armed());
    assert!(!d.outcome.state.arming.pending);
}

#[test]
fn confirm_at_the_deadline_still_arms() {
    let mut p = armed_gates_plane();
    decide_at(&mut p, DashboardCommand::ArmLiveBegin, CommandOrigin::Cli, 1_000);
    let d = decide_at(&mut p, confirm(PHRASE), CommandOrigin::Cli, 1_000 + PENDING_TTL_MS);
    assert!(d.outcome.accepted());
    assert!(p.state.session_armed());
}

#[test]
fn the_minute_counts_from_the_last_begin_and_a_disarm_ends_it() {
    let mut p = armed_gates_plane();
    decide_at(&mut p, DashboardCommand::ArmLiveBegin, CommandOrigin::Cli, 1_000);
    decide_at(&mut p, DashboardCommand::ArmLiveBegin, CommandOrigin::Cli, 50_000);
    decide_at(&mut p, DashboardCommand::Kill, CommandOrigin::Cli, 60_000);
    let d = decide_at(&mut p, confirm(PHRASE), CommandOrigin::Cli, 100_000);
    assert!(d.outcome.accepted());
    assert!(p.runtime().session_armed());

    let mut p = armed_gates_plane();
    decide_at(&mut p, DashboardCommand::ArmLiveBegin, CommandOrigin::Cli, 1_000);
    decide_at(&mut p, DashboardCommand::Disarm, CommandOrigin::Cli, 2_000);
    let d = decide_at(&mut p, confirm(PHRASE), CommandOrigin::Cli, 3_000);
    assert!(!d.outcome.accepted());
    assert!(!p.runtime().session_armed());
}

#[test]
fn confirm_without_begin_is_conflict() {
    let mut p = armed_gates_plane();
    let d = decide_at(&mut p, confirm(PHRASE), CommandOrigin::Cli, 1_000);
    assert_eq!(d.outcome.kind, OutcomeKind::Conflict);
}

#[test]
fn every_command_emits_exactly_one_audit() {
    let mut p = paper_plane();
    for (cmd, kind, accepted) in [
        (DashboardCommand::Kill, "kill", true),
        (DashboardCommand::Reset, "reset", true),
        (DashboardCommand::ResetDailyStop, "reset_daily_stop", true),
        (DashboardCommand::EnableSeries("BTC-5m".to_owned()), "enable_series", true),
        (set_param(None, "min_edge", "0.005"), "set_param", false),
    ] {
        // A decision holds one audit, by its type: what remains to see is that it is this one's.
        let d = decide(&mut p, cmd);
        assert_eq!(d.audit.kind, kind);
        assert_eq!(d.audit.accepted, accepted);
        assert_eq!(d.audit.error, d.outcome.error);
    }
}

#[test]
fn audit_trail_records_every_command_end_to_end() {
    let mut p = armed_gates_plane();
    let commands = [
        (DashboardCommand::Kill, CommandOrigin::Cli, "kill", true),
        (DashboardCommand::Reset, CommandOrigin::Dashboard, "reset", true),
        (set_param(None, "touch_size", "20"), CommandOrigin::Cli, "set_param", false),
        (DashboardCommand::ArmLiveBegin, CommandOrigin::Cli, "arm_live", true),
    ];
    let mut rows: Vec<ControlAudit> = Vec::new();
    for (i, (cmd, origin, _, _)) in commands.iter().enumerate() {
        let d = decide_at(&mut p, cmd.clone(), *origin, 1_000 + i as i64);
        rows.push(d.audit);
    }
    assert_eq!(rows.len(), commands.len(), "one audit row per command");
    for (i, (row, (_, origin, kind, accepted))) in rows.iter().zip(commands.iter()).enumerate() {
        assert_eq!(&row.kind, kind);
        assert_eq!(row.origin, *origin);
        assert_eq!(row.accepted, *accepted);
        assert_eq!(row.ts_ms, 1_000 + i as i64);
    }
}

#[test]
fn a_refused_command_changes_nothing() {
    let mut p = armed_gates_plane();
    decide(&mut p, set_param(Some("BTC-5m"), "min_edge", "0.02"));
    let before = format!("{:?}", p.snapshot());
    for cmd in [
        set_param(None, "touch_size", "20"),
        DashboardCommand::EnableSeries("XRP-9m".to_owned()),
        confirm(PHRASE),
    ] {
        let d = decide(&mut p, cmd);
        assert!(!d.outcome.accepted());
        assert_eq!(d.venue_action, None);
        assert!(d.events.is_empty());
        assert_eq!(format!("{:?}", p.snapshot()), before);
    }
}

#[test]
fn a_halted_plane_does_not_quote() {
    let mut p = paper_plane();
    decide(&mut p, DashboardCommand::Kill);
    let mut quoter = Quoter::new();
    quoter.on_window(&market(), WindowLifecycle::Open);
    assert!(quoter.on_quote_tick(&p.state).is_none());
    decide(&mut p, DashboardCommand::Reset);
    assert_eq!(quoter.on_quote_tick(&p.state).map(|orders| orders.len()), Some(0));
    quoter.on_top(&Id::new("1"), top("0.40", "0.45"));
    quoter.on_top(&Id::new("2"), top("0.50", "0.55"));
    let orders = quoter.on_quote_tick(&p.state).unwrap();
    assert!(!orders.is_empty());
    // A disabled series is not quoted.
    decide(&mut p, DashboardCommand::DisableSeries("BTC-5m".to_owned()));
    assert_eq!(quoter.on_quote_tick(&p.state).map(|orders| orders.len()), Some(0));
}

#[test]
fn apply_decision_drives_capital_and_halt() {
    let mut control = paper_plane();
    let now = 1_000_000;
    let mut collateral = Amount::from_i64(0);

    let d = decide_at(
        &mut control,
        DashboardCommand::SetPaperCapital(Amount::from_i64(12_000)),
        CommandOrigin::Dashboard,
        now,
    );
    if let Some(VenueAction::SetCapital(amount)) = d.venue_action {
        collateral = amount;
    }
    assert_eq!(capital_event(d.venue_action, Some(collateral)), Some(Amount::from_i64(12_000)));
    let out = with_capital(d.outcome, Some(collateral));
    assert!(out.accepted());
    assert_eq!(out.state.paper_capital, Some(Amount::from_i64(12_000)));

    let d = decide_at(
        &mut control,
        DashboardCommand::AdjustPaperCapital(figure("-2000")),
        CommandOrigin::Dashboard,
        now,
    );
    if let Some(VenueAction::AdjustCapital(delta)) = d.venue_action {
        collateral = collateral.plus(&delta.amount());
    }
    assert_eq!(capital_event(d.venue_action, Some(collateral)), Some(Amount::from_i64(10_000)));
    let out = with_capital(d.outcome, Some(collateral));
    assert_eq!(out.state.paper_capital, Some(Amount::from_i64(10_000)));

    assert!(!control.state.is_halted());
    let d = decide_at(&mut control, DashboardCommand::Kill, CommandOrigin::Dashboard, now);
    assert_eq!(d.venue_action, Some(VenueAction::CancelAll));
    assert_eq!(capital_event(d.venue_action, Some(collateral)), None);
    let out = with_capital(d.outcome, Some(collateral));
    assert!(out.state.halted);
    assert!(control.state.is_halted());
    decide_at(&mut control, DashboardCommand::Reset, CommandOrigin::Dashboard, now);
    assert!(!control.state.is_halted());
}

#[test]
fn a_decision_is_journaled_and_shown() {
    let mut control = paper_plane();
    let d = decide(&mut control, DashboardCommand::Kill);
    let fx = carry_out(d, Some(amount("7")));
    let events: Vec<BusRecord> = vec![
        BusRecord::Event(ControlEvent::Kill),
        BusRecord::Event(ControlEvent::BreakerTripped(BreakerKind::Manual)),
        BusRecord::Event(ControlEvent::CancelAllIssued(BreakerKind::Manual)),
    ];
    assert_eq!(fx.shown, events);
    assert_eq!(fx.journal[..3], events[..]);
    assert_eq!(fx.journal[3..], [BusRecord::Audit]);
    assert!(!fx.resample);
    assert_eq!(fx.audit.kind, "kill");
    assert_eq!(fx.outcome.state.paper_capital, Some(amount("7")));

    let d = decide(&mut control, DashboardCommand::SetPaperCapital(amount("12000")));
    let fx = carry_out(d, Some(amount("12000")));
    assert_eq!(fx.journal, vec![BusRecord::Audit, BusRecord::CapitalSet(amount("12000"))]);
    assert_eq!(fx.shown, vec![BusRecord::CapitalSet(amount("12000"))]);
    assert!(fx.resample);

    // A venue that does not tell its capital changes nothing on the screen.
    let d = decide(&mut control, DashboardCommand::SetPaperCapital(amount("12000")));
    let fx = carry_out(d, None);
    assert_eq!(fx.journal, vec![BusRecord::Audit]);
    assert!(fx.shown.is_empty() && !fx.resample);
}

#[test]
fn a_session_deals_with_what_reaches_it_in_order() {
    let mut control = paper_plane();
    assert_eq!(
        plan(LoopInput::Bus { window: true }, true, &control.state),
        vec![
            LoopAction::Journal,
            LoopAction::ForwardWindow,
            LoopAction::TellVenue,
            LoopAction::Show,
            LoopAction::TellQuoter,
            LoopAction::TellModel,
            LoopAction::FoldInventory,
        ]
    );
    assert_eq!(plan(LoopInput::VenueOrder, true, &control.state), vec![LoopAction::Show]);
    assert_eq!(
        plan(LoopInput::VenueFill, true, &control.state),
        vec![LoopAction::Show, LoopAction::FoldInventory]
    );
    assert_eq!(plan(LoopInput::QuoteTick, true, &control.state), vec![LoopAction::Requote]);
    assert!(plan(LoopInput::Heartbeat, false, &control.state).is_empty());
    assert_eq!(
        plan(LoopInput::Stop, false, &control.state),
        vec![LoopAction::CancelAll, LoopAction::ShutVenueDown, LoopAction::Close]
    );
    decide(&mut control, DashboardCommand::Kill);
    assert!(plan(LoopInput::QuoteTick, true, &control.state).is_empty());
}

fn value(text: &str) -> serde_json::Value {
    serde_json::from_str(text).unwrap()
}

#[test]
fn routes_map_to_the_right_endpoints() {
    assert_eq!(route(&ControlSub::Kill).path, "/api/control/kill");
    let r = route(&ControlSub::Status);
    assert_eq!((r.post, r.path, r.body), (false, "/api/control/status", None));
    let r = route(&ControlSub::SetCapital("12000".to_owned()));
    assert!(r.post);
    assert_eq!(r.path, "/api/control/paper-capital");
    assert_eq!(value(&r.body.unwrap()), value(r#"{ "amount": "12000" }"#));
    let r = route(
        &ControlSub::SetParam {
            series: Some("BTC-5m".to_owned()),
            key: "min_edge".to_owned(),
            value: "0.02".to_owned(),
        },
    );
    assert_eq!(r.path, "/api/control/set-param");
    assert_eq!(
        value(&r.body.unwrap()),
        value(r#"{ "series": "BTC-5m", "key": "min_edge", "value": "0.02" }"#)
    );
    assert_eq!(
        route(&ControlSub::ConfirmArm("phrase".to_owned())).path,
        "/api/control/arm-live/confirm"
    );
}

#[test]
fn a_body_quotes_what_needs_quoting() {
    let r = route(&ControlSub::ConfirmArm("a \"b\"\n".to_owned()));
    assert_eq!(r.body.as_deref(), Some(r#"{"phrase":"a \"b\"\n"}"#));
    let r = route(
        &ControlSub::SetParam { series: None, key: "k".to_owned(), value: "v".to_owned() },
    );
    assert_eq!(r.body.as_deref(), Some(r#"{"key":"k","series":null,"value":"v"}"#));
}

#[test]
fn pretty_falls_back_to_raw_on_non_json() {
    assert_eq!(pretty("not json"), "not json");
    assert!(pretty(r#"{"a":1}"#).contains("\"a\""));
    assert_eq!(pretty(r#"{"a":1}"#), "{\n  \"a\": 1\n}");
}

#[test]
fn a_session_trades_what_is_asked_for() {
    let all = Series::all();
    assert_eq!(series_to_trade(Some(btc5()), &Vec::new()), Ok(vec![btc5()]));
    assert_eq!(series_to_trade(None, &all), Ok(all));
    assert_eq!(
        series_to_trade(None, &Vec::new()),
        Err("no enabled series to trade (enable some in config or pass --series)".to_owned())
    );
}

#[test]
fn the_parameters_are_listed_in_order() {
    let c = ShownConfig {
        starting_capital: Amount::from_i64(10_000),
        daily_stop_loss: "1".to_owned(),
        max_open_notional: "2".to_owned(),
        feed_staleness_ms: 3,
        sanity_bound: "4".to_owned(),
        default_fee_rate: "5".to_owned(),
        maker_rebate_share: "6".to_owned(),
        taker_rebate_enabled: true,
        no_atm_final_secs: "8".to_owned(),
        no_passive_final_secs: "9".to_owned(),
        late_window_tau_secs: "10".to_owned(),
        atm_band: "11".to_owned(),
        min_requote_interval_ms: "12".to_owned(),
        cancel_rtt_secs: "13".to_owned(),
    };
    let v = params_view(&c);
    assert_eq!(v.paper_capital, Some(Amount::from_i64(10_000)));
    let shown: Vec<&str> = v.entries.iter().map(|e| e.1.as_str()).collect();
    assert_eq!(
        shown,
        vec!["1", "2", "3", "4", "5", "6", "true", "8", "9", "10", "11", "12", "13"]
    );
    assert_eq!(v.entries[2].0, "risk.feed_staleness_ms");
}
