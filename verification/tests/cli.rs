//! The command line: subcommands, flags, and which flags go with which subcommand.

use updown_bot::cli::{parse_args, Cli, Command, ControlSub};
use updown_bot::feed_source::FeedSource;
use updown_bot::types::{Asset, Series, WindowDuration};

fn parse(args: &[&str]) -> Result<Cli, String> {
    let args: Vec<String> = args.iter().map(|s| (*s).to_owned()).collect();
    parse_args(&args)
}

#[test]
fn defaults_to_paper() {
    let cli = parse(&[]).unwrap();
    assert_eq!(cli.command, Command::Paper);
    assert_eq!(cli.config_dir, None);
}

#[test]
fn parses_subcommands_and_config_dir() {
    let cli = parse(&["check-config", "--config-dir", "somewhere"]).unwrap();
    assert_eq!(cli.command, Command::CheckConfig);
    assert_eq!(cli.config_dir, Some(String::from("somewhere")));

    let cli = parse(&["live", "--config-dir=elsewhere"]).unwrap();
    assert_eq!(cli.command, Command::Live);
    assert_eq!(cli.config_dir, Some(String::from("elsewhere")));

    let cli = parse(&["discover"]).unwrap();
    assert_eq!(cli.command, Command::Discover);

    let cli = parse(&["schedule"]).unwrap();
    assert_eq!(cli.command, Command::Schedule);
}

#[test]
fn parses_feed_with_raw_both_forms() {
    let cli = parse(&["feed"]).unwrap();
    assert_eq!(cli.command, Command::Feed);
    assert_eq!(cli.raw, None);
    assert_eq!(cli.source, None);

    let cli = parse(&["feed", "--raw", "data/captures/rtds.jsonl"]).unwrap();
    assert_eq!(cli.command, Command::Feed);
    assert_eq!(cli.raw, Some(String::from("data/captures/rtds.jsonl")));

    let cli = parse(&["feed", "--raw=cap.jsonl"]).unwrap();
    assert_eq!(cli.raw, Some(String::from("cap.jsonl")));
}

#[test]
fn parses_feed_source_both_forms() {
    let cli = parse(&["feed", "--source", "binance"]).unwrap();
    assert_eq!(cli.command, Command::Feed);
    assert_eq!(cli.source, Some(FeedSource::Binance));

    let cli = parse(&["feed", "--source=rtds", "--raw=cap.jsonl"]).unwrap();
    assert_eq!(cli.source, Some(FeedSource::Rtds));
    assert_eq!(cli.raw, Some(String::from("cap.jsonl")));

    // Bad values and missing values are rejected.
    assert!(parse(&["feed", "--source", "coinbase"]).is_err());
    assert!(parse(&["feed", "--source"]).is_err());
}

#[test]
fn parses_compare() {
    let cli = parse(&["compare"]).unwrap();
    assert_eq!(cli.command, Command::Compare);
    // compare always runs both feeds - --source doesn't apply.
    assert!(parse(&["compare", "--source", "binance"]).is_err());
    assert!(parse(&["compare", "--raw", "x.jsonl"]).is_err());
    assert!(parse(&["compare", "paper"]).is_err());
}

#[test]
fn parses_vol() {
    let cli = parse(&["vol"]).unwrap();
    assert_eq!(cli.command, Command::Vol);
    // vol always runs both feeds with the four fixed lanes - no flags
    // from other subcommands apply.
    assert!(parse(&["vol", "--source", "binance"]).is_err());
    assert!(parse(&["vol", "--raw", "x.jsonl"]).is_err());
    assert!(parse(&["vol", "--series", "BTC-5m"]).is_err());
    assert!(parse(&["vol", "--label", "x"]).is_err());
    assert!(parse(&["vol", "paper"]).is_err());
}

#[test]
fn rejects_raw_on_other_subcommands() {
    assert!(parse(&["paper", "--raw", "x.jsonl"]).is_err());
    assert!(parse(&["latency", "--raw=x.jsonl"]).is_err());
    // No subcommand defaults to paper - rejected there too.
    assert!(parse(&["--raw", "x.jsonl"]).is_err());
    assert!(parse(&["feed", "--raw"]).is_err());
    // And latency flags don't leak onto feed.
    assert!(parse(&["feed", "--label", "x"]).is_err());
    // --source is feed-only.
    assert!(parse(&["schedule", "--source", "binance"]).is_err());
    assert!(parse(&["--source=binance"]).is_err());
}

#[test]
fn parses_ladder_flags_both_forms() {
    let cli = parse(&["ladder"]).unwrap();
    assert_eq!(cli.command, Command::Ladder);
    assert_eq!(cli.series, None);
    assert_eq!(cli.depth, None);
    assert_eq!(cli.recycle_after, None);
    assert_eq!(cli.raw, None);

    let cli = parse(&[
        "ladder",
        "--series",
        "ETH-1h",
        "--depth",
        "12",
        "--recycle-after",
        "60",
        "--raw",
        "cap.jsonl",
    ])
    .unwrap();
    assert_eq!(
        cli.series,
        Some(Series {
            asset: Asset::Eth,
            duration: WindowDuration::H1,
        })
    );
    assert_eq!(cli.depth, Some(12));
    assert_eq!(cli.recycle_after, Some(60));
    assert_eq!(cli.raw, Some(String::from("cap.jsonl")));

    let cli = parse(&[
        "ladder",
        "--series=BTC-15m",
        "--depth=4",
        "--recycle-after=30",
    ])
    .unwrap();
    assert_eq!(
        cli.series,
        Some(Series {
            asset: Asset::Btc,
            duration: WindowDuration::M15,
        })
    );
    assert_eq!(cli.depth, Some(4));
    assert_eq!(cli.recycle_after, Some(30));
}

#[test]
fn rejects_bad_ladder_flags() {
    // Unknown series, case-sensitive keys, bad numbers.
    assert!(parse(&["ladder", "--series", "DOGE-5m"]).is_err());
    assert!(parse(&["ladder", "--series", "btc-5m"]).is_err());
    assert!(parse(&["ladder", "--depth", "0"]).is_err());
    assert!(parse(&["ladder", "--depth", "many"]).is_err());
    assert!(parse(&["ladder", "--recycle-after", "-5"]).is_err());
    assert!(parse(&["ladder", "--series"]).is_err());
    // Ladder flags don't leak onto other subcommands.
    assert!(parse(&["feed", "--series", "BTC-5m"]).is_err());
    assert!(parse(&["schedule", "--depth", "8"]).is_err());
    assert!(parse(&["--recycle-after", "60"]).is_err());
    // Feed/latency flags don't leak onto ladder.
    assert!(parse(&["ladder", "--source", "rtds"]).is_err());
    assert!(parse(&["ladder", "--label", "x"]).is_err());
}

#[test]
fn parses_fair_flags() {
    // Bare fair defaults to BTC-5m at dispatch (series None here).
    let cli = parse(&["fair"]).unwrap();
    assert_eq!(cli.command, Command::Fair);
    assert_eq!(cli.series, None);

    // --series applies to fair (shared with ladder), both forms.
    let cli = parse(&["fair", "--series", "ETH-15m"]).unwrap();
    assert_eq!(
        cli.series,
        Some(Series {
            asset: Asset::Eth,
            duration: WindowDuration::M15,
        })
    );
    assert_eq!(
        parse(&["fair", "--series=BTC-5m"]).unwrap().command,
        Command::Fair
    );

    // Ladder-only and feed/latency flags don't apply to fair.
    assert!(parse(&["fair", "--depth", "8"]).is_err());
    assert!(parse(&["fair", "--recycle-after", "30"]).is_err());
    assert!(parse(&["fair", "--raw", "x.jsonl"]).is_err());
    assert!(parse(&["fair", "--source", "rtds"]).is_err());
    assert!(parse(&["fair", "--label", "x"]).is_err());
    assert!(parse(&["fair", "--series", "DOGE-5m"]).is_err());
}

#[test]
fn parses_paper_sim() {
    // Bare paper-sim defaults to BTC-5m at dispatch (series None here).
    let cli = parse(&["paper-sim"]).unwrap();
    assert_eq!(cli.command, Command::PaperSim);
    assert_eq!(cli.series, None);

    // --series applies to paper-sim (shared with ladder/fair), both forms.
    let cli = parse(&["paper-sim", "--series", "ETH-15m"]).unwrap();
    assert_eq!(
        cli.series,
        Some(Series {
            asset: Asset::Eth,
            duration: WindowDuration::M15,
        })
    );
    assert_eq!(
        parse(&["paper-sim", "--series=BTC-1h"]).unwrap().command,
        Command::PaperSim
    );

    // `paper` and `paper-sim` are distinct; ladder-only/feed/latency flags
    // don't apply to paper-sim.
    assert_eq!(parse(&["paper"]).unwrap().command, Command::Paper);
    assert!(parse(&["paper-sim", "--depth", "8"]).is_err());
    assert!(parse(&["paper-sim", "--raw", "x.jsonl"]).is_err());
    assert!(parse(&["paper-sim", "--source", "rtds"]).is_err());
    assert!(parse(&["paper-sim", "--label", "x"]).is_err());
    assert!(parse(&["paper-sim", "paper"]).is_err());
    assert!(parse(&["paper-sim", "--series", "DOGE-5m"]).is_err());
}

#[test]
fn parses_record_flags() {
    // Bare record: all enabled series, default out-dir at dispatch.
    let cli = parse(&["record"]).unwrap();
    assert_eq!(cli.command, Command::Record);
    assert_eq!(cli.series, None);
    assert_eq!(cli.out_dir, None);

    // --series (shared with ladder/fair/paper-sim) + --out-dir, both forms.
    let cli = parse(&["record", "--series", "ETH-15m", "--out-dir", "data/cap"]).unwrap();
    assert_eq!(
        cli.series,
        Some(Series {
            asset: Asset::Eth,
            duration: WindowDuration::M15,
        })
    );
    assert_eq!(cli.out_dir, Some(String::from("data/cap")));
    let cli = parse(&["record", "--series=BTC-1h", "--out-dir=/tmp/j"]).unwrap();
    assert_eq!(cli.out_dir, Some(String::from("/tmp/j")));

    // --out-dir is record-only; ladder/feed/latency flags don't apply.
    assert!(parse(&["record", "--depth", "8"]).is_err());
    assert!(parse(&["record", "--raw", "x.jsonl"]).is_err());
    assert!(parse(&["record", "--source", "rtds"]).is_err());
    assert!(parse(&["record", "--label", "x"]).is_err());
    assert!(parse(&["record", "--series", "DOGE-5m"]).is_err());
    assert!(parse(&["record", "paper"]).is_err());
    // --out-dir does not leak onto other subcommands.
    assert!(parse(&["ladder", "--out-dir", "x"]).is_err());
    assert!(parse(&["--out-dir", "x"]).is_err());
    assert!(parse(&["record", "--out-dir"]).is_err());
}

#[test]
fn parses_dashboard_flags() {
    // Bare dashboard: all enabled series at dispatch (series None here).
    let cli = parse(&["dashboard"]).unwrap();
    assert_eq!(cli.command, Command::Dashboard);
    assert_eq!(cli.series, None);
    assert!(!cli.with_model);

    // --with-model opts the model in; it is dashboard-only.
    let cli = parse(&["dashboard", "--with-model"]).unwrap();
    assert_eq!(cli.command, Command::Dashboard);
    assert!(cli.with_model);
    let cli = parse(&["dashboard", "--with-model", "--series", "BTC-5m"]).unwrap();
    assert!(cli.with_model);
    assert!(parse(&["paper-sim", "--with-model"]).is_err());
    assert!(parse(&["--with-model"]).is_err());

    // --series (shared with ladder/fair/paper-sim/record) scopes it, both forms.
    let cli = parse(&["dashboard", "--series", "ETH-15m"]).unwrap();
    assert_eq!(
        cli.series,
        Some(Series {
            asset: Asset::Eth,
            duration: WindowDuration::M15,
        })
    );
    assert_eq!(
        parse(&["dashboard", "--series=BTC-1h"]).unwrap().command,
        Command::Dashboard
    );
    let cli = parse(&["dashboard", "--config-dir", "cfg"]).unwrap();
    assert_eq!(cli.config_dir, Some(String::from("cfg")));

    // Other subcommands' flags don't apply; can't combine with a mode.
    assert!(parse(&["dashboard", "--depth", "8"]).is_err());
    assert!(parse(&["dashboard", "--raw", "x.jsonl"]).is_err());
    assert!(parse(&["dashboard", "--source", "rtds"]).is_err());
    assert!(parse(&["dashboard", "--label", "x"]).is_err());
    assert!(parse(&["dashboard", "--out-dir", "x"]).is_err());
    assert!(parse(&["dashboard", "--series", "DOGE-5m"]).is_err());
    assert!(parse(&["dashboard", "paper"]).is_err());
}

#[test]
fn parses_run_flags() {
    // Bare run: all enabled series at dispatch (series None here).
    let cli = parse(&["run"]).unwrap();
    assert_eq!(cli.command, Command::Run);
    assert_eq!(cli.series, None);

    // --series (shared with ladder/fair/paper-sim/record/dashboard) scopes it.
    let cli = parse(&["run", "--series", "ETH-15m"]).unwrap();
    assert_eq!(
        cli.series,
        Some(Series {
            asset: Asset::Eth,
            duration: WindowDuration::M15,
        })
    );
    assert_eq!(
        parse(&["run", "--series=BTC-1h"]).unwrap().command,
        Command::Run
    );
    let cli = parse(&["run", "--config-dir", "cfg"]).unwrap();
    assert_eq!(cli.config_dir, Some(String::from("cfg")));

    // Other subcommands' flags don't apply; can't combine with a mode.
    assert!(parse(&["run", "--with-model"]).is_err());
    assert!(parse(&["run", "--depth", "8"]).is_err());
    assert!(parse(&["run", "--raw", "x.jsonl"]).is_err());
    assert!(parse(&["run", "--source", "rtds"]).is_err());
    assert!(parse(&["run", "--label", "x"]).is_err());
    assert!(parse(&["run", "--out-dir", "x"]).is_err());
    assert!(parse(&["run", "--series", "DOGE-5m"]).is_err());
    assert!(parse(&["run", "paper"]).is_err());
}

#[test]
fn parses_replay_flags() {
    // Bare replay: default journal-dir + window at dispatch (None here).
    let cli = parse(&["replay"]).unwrap();
    assert_eq!(cli.command, Command::Replay);
    assert_eq!(cli.journal_dir, None);
    assert_eq!(cli.window, None);
    assert_eq!(cli.out, None);

    // Positional journal-dir + --window + --out (replay accepts --out).
    let cli = parse(&[
        "replay",
        "data/journal",
        "--window",
        "7d",
        "--out",
        "r.json",
    ])
    .unwrap();
    assert_eq!(cli.command, Command::Replay);
    assert_eq!(cli.journal_dir, Some(String::from("data/journal")));
    assert_eq!(cli.window.as_deref(), Some("7d"));
    assert_eq!(cli.out, Some(String::from("r.json")));

    // A leading flag means no positional dir is consumed.
    let cli = parse(&["replay", "--window=all"]).unwrap();
    assert_eq!(cli.journal_dir, None);
    assert_eq!(cli.window.as_deref(), Some("all"));

    // A non-flag token after `replay` is the positional journal-dir.
    let cli = parse(&["replay", "paper"]).unwrap();
    assert_eq!(cli.command, Command::Replay);
    assert_eq!(cli.journal_dir, Some(String::from("paper")));

    // Sweep-only grid flags don't apply to replay; series/ladder flags don't either.
    assert!(parse(&["replay", "--min-edge", "0.01"]).is_err());
    assert!(parse(&["replay", "--parallel"]).is_err());
    assert!(parse(&["replay", "--series", "BTC-5m"]).is_err());
    assert!(parse(&["replay", "--depth", "8"]).is_err());
    // --window is replay/sweep-only; --out is not record/feed/etc.
    assert!(parse(&["paper", "--window", "all"]).is_err());
    assert!(parse(&["schedule", "--out", "r.json"]).is_err());
    // A second subcommand after a mode is rejected.
    assert!(parse(&["paper", "replay"]).is_err());
}

#[test]
fn parses_sweep_flags() {
    // Bare sweep.
    let cli = parse(&["sweep"]).unwrap();
    assert_eq!(cli.command, Command::Sweep);
    assert_eq!(cli.journal_dir, None);
    assert!(!cli.parallel);

    // Full grid, both flag forms, plus positional dir + rank + parallel.
    let cli = parse(&[
        "sweep",
        "data/j",
        "--min-edge",
        "0.01,0.02",
        "--gamma=0.05,0.1",
        "--cancel-theta",
        "0.005,0.01",
        "--taker-buffer=0.005",
        "--rank",
        "pnl-per-window",
        "--parallel",
        "--window",
        "today",
    ])
    .unwrap();
    assert_eq!(cli.command, Command::Sweep);
    assert_eq!(cli.journal_dir, Some(String::from("data/j")));
    assert_eq!(cli.min_edge.as_deref(), Some("0.01,0.02"));
    assert_eq!(cli.gamma.as_deref(), Some("0.05,0.1"));
    assert_eq!(cli.cancel_theta.as_deref(), Some("0.005,0.01"));
    assert_eq!(cli.taker_buffer.as_deref(), Some("0.005"));
    assert_eq!(cli.rank.as_deref(), Some("pnl-per-window"));
    assert!(cli.parallel);
    assert_eq!(cli.window.as_deref(), Some("today"));

    // Grid flags are sweep-only; can't combine with another mode.
    assert!(parse(&["replay", "--gamma", "0.1"]).is_err());
    assert!(parse(&["paper", "sweep"]).is_err());
    assert!(parse(&["--min-edge", "0.01"]).is_err());
}

#[test]
fn parses_latency_flags_both_forms() {
    let cli = parse(&["latency", "--label", "eu-west-2", "--out", "r.json"]).unwrap();
    assert_eq!(cli.command, Command::Latency);
    assert_eq!(cli.label.as_deref(), Some("eu-west-2"));
    assert_eq!(cli.out, Some(String::from("r.json")));

    let cli = parse(&["latency", "--label=vps-1", "--out=data/r.json"]).unwrap();
    assert_eq!(cli.label.as_deref(), Some("vps-1"));
    assert_eq!(cli.out, Some(String::from("data/r.json")));

    // Bare latency works; flags default to None.
    let cli = parse(&["latency"]).unwrap();
    assert_eq!(cli.command, Command::Latency);
    assert_eq!(cli.label, None);
    assert_eq!(cli.out, None);
}

#[test]
fn rejects_latency_flags_on_other_subcommands() {
    assert!(parse(&["paper", "--label", "x"]).is_err());
    assert!(parse(&["schedule", "--out", "r.json"]).is_err());
    // No subcommand defaults to paper - flags are rejected there too.
    assert!(parse(&["--label", "x"]).is_err());
    assert!(parse(&["latency", "--label"]).is_err());
}

#[test]
fn rejects_schedule_combined_with_another_mode() {
    assert!(parse(&["schedule", "paper"]).is_err());
}

#[test]
fn parses_venue_check() {
    let cli = parse(&["venue-check"]).unwrap();
    assert_eq!(cli.command, Command::VenueCheck);

    let cli = parse(&["venue-check", "--config-dir", "cfg"]).unwrap();
    assert_eq!(cli.config_dir, Some(String::from("cfg")));

    // venue-check takes no other flags, and cannot combine with a mode.
    assert!(parse(&["venue-check", "--source", "rtds"]).is_err());
    assert!(parse(&["venue-check", "--series", "BTC-5m"]).is_err());
    assert!(parse(&["venue-check", "--raw", "x.jsonl"]).is_err());
    assert!(parse(&["venue-check", "paper"]).is_err());
}

#[test]
fn parses_digest_flags() {
    // Bare digest: date + out default to None (resolved at dispatch).
    let cli = parse(&["digest"]).unwrap();
    assert_eq!(cli.command, Command::Digest);
    assert_eq!(cli.date, None);
    assert_eq!(cli.out, None);

    // --date + --out both apply to digest, both flag forms.
    let cli = parse(&["digest", "--date", "2026-06-15", "--out", "d.md"]).unwrap();
    assert_eq!(cli.command, Command::Digest);
    assert_eq!(cli.date.as_deref(), Some("2026-06-15"));
    assert_eq!(cli.out, Some(String::from("d.md")));
    let cli = parse(&["digest", "--date=2026-06-15", "--out=d.md"]).unwrap();
    assert_eq!(cli.date.as_deref(), Some("2026-06-15"));
    assert_eq!(cli.out, Some(String::from("d.md")));

    // --date is digest-only; digest can't combine with a mode; other
    // subcommands' flags don't apply; a missing value is rejected.
    assert!(parse(&["paper", "--date", "x"]).is_err());
    assert!(parse(&["digest", "--date"]).is_err());
    assert!(parse(&["digest", "--source", "rtds"]).is_err());
    assert!(parse(&["digest", "--depth", "8"]).is_err());
    assert!(parse(&["paper", "digest"]).is_err());
    assert!(parse(&["digest", "paper"]).is_err());
}

#[test]
fn rejects_garbage() {
    assert!(parse(&["fly"]).is_err());
    assert!(parse(&["paper", "live"]).is_err());
    assert!(parse(&["--config-dir"]).is_err());
    assert!(parse(&["--unknown-flag"]).is_err());
}

#[test]
fn parses_control_subcommands() {
    assert_eq!(
        parse(&["control", "kill"]).unwrap().command,
        Command::Control(ControlSub::Kill)
    );
    assert_eq!(
        parse(&["control", "status"]).unwrap().command,
        Command::Control(ControlSub::Status)
    );
    assert_eq!(
        parse(&["control", "reset-daily-stop"]).unwrap().command,
        Command::Control(ControlSub::ResetDailyStop)
    );
    assert_eq!(
        parse(&["control", "set-capital", "12000"]).unwrap().command,
        Command::Control(ControlSub::SetCapital("12000".to_owned()))
    );
    assert_eq!(
        parse(&["control", "enable-series", "BTC-5m"])
            .unwrap()
            .command,
        Command::Control(ControlSub::EnableSeries("BTC-5m".to_owned()))
    );
    // set-param with the optional --series, both forms.
    assert_eq!(
        parse(&[
            "control",
            "set-param",
            "min_edge",
            "0.02",
            "--series",
            "BTC-5m"
        ])
        .unwrap()
        .command,
        Command::Control(ControlSub::SetParam {
            series: Some("BTC-5m".to_owned()),
            key: "min_edge".to_owned(),
            value: "0.02".to_owned(),
        })
    );
    assert_eq!(
        parse(&[
            "control",
            "set-param",
            "min_edge",
            "0.02",
            "--series=ETH-1h"
        ])
        .unwrap()
        .command,
        Command::Control(ControlSub::SetParam {
            series: Some("ETH-1h".to_owned()),
            key: "min_edge".to_owned(),
            value: "0.02".to_owned(),
        })
    );
    // set-param without --series is a global override.
    assert_eq!(
        parse(&["control", "set-param", "min_edge", "0.02"])
            .unwrap()
            .command,
        Command::Control(ControlSub::SetParam {
            series: None,
            key: "min_edge".to_owned(),
            value: "0.02".to_owned(),
        })
    );
    assert_eq!(
        parse(&["control", "confirm-arm", "the-phrase"])
            .unwrap()
            .command,
        Command::Control(ControlSub::ConfirmArm("the-phrase".to_owned()))
    );
    // A global flag after the control subcommand still parses.
    let cli = parse(&["control", "kill", "--config-dir", "cfg"]).unwrap();
    assert_eq!(cli.command, Command::Control(ControlSub::Kill));
    assert_eq!(cli.config_dir, Some(String::from("cfg")));
}

#[test]
fn rejects_bad_control_args() {
    assert!(parse(&["control"]).is_err(), "missing subcommand");
    assert!(
        parse(&["control", "nonsense"]).is_err(),
        "unknown subcommand"
    );
    assert!(
        parse(&["control", "set-capital"]).is_err(),
        "missing positional"
    );
    assert!(
        parse(&["control", "set-capital", "--series"]).is_err(),
        "flag where a positional is required"
    );
    assert!(
        parse(&["control", "kill", "kill"]).is_err(),
        "stray trailing positional is an unrecognized argument"
    );
}

#[test]
fn complaints_name_the_argument() {
    assert_eq!(
        parse(&["fly"]),
        Err("unrecognized argument: \"fly\"".to_owned())
    );
    assert_eq!(
        parse(&["paper", "live"]),
        Err("more than one subcommand given (second: \"live\")".to_owned())
    );
    assert_eq!(
        parse(&["ladder", "--depth", "0"]),
        Err("--depth must be a positive integer, got \"0\"".to_owned())
    );
    assert_eq!(
        parse(&["ladder", "--recycle-after=-5"]),
        Err("--recycle-after must be a number of seconds, got \"-5\"".to_owned())
    );
    assert_eq!(
        parse(&["ladder", "--series", "btc-5m"]),
        Err("unknown series \"btc-5m\" (expected a key like BTC-5m, ETH-1h)".to_owned())
    );
    assert_eq!(
        parse(&["feed", "--source", "a\nb"]),
        Err("unknown feed source \"a\\nb\" (expected rtds or binance)".to_owned())
    );
    assert_eq!(
        parse(&["control", "set-capital", "--x"]),
        Err("control set-capital expected <amount>, got flag \"--x\"".to_owned())
    );
    assert_eq!(
        parse(&["control", "set-param", "k"]),
        Err("control set-param requires <value>".to_owned())
    );
    assert_eq!(
        parse(&["control", "set-param", "k", "v", "--series"]),
        Err("--series requires a value".to_owned())
    );
    assert_eq!(
        parse(&["feed", "--out", "x"]),
        Err("--out only applies to the latency, replay, sweep, and digest subcommands".to_owned())
    );
}

#[test]
fn a_repeated_flag_takes_the_later_value() {
    let cli = parse(&["ladder", "--depth=4", "--depth", "+7"]).unwrap();
    assert_eq!(cli.depth, Some(7));
    let spaced = parse(&["latency", "--label", "x=y"]).unwrap();
    let inline = parse(&["latency", "--label=x=y"]).unwrap();
    assert_eq!(spaced, inline);
}

#[test]
fn only_the_word_live_asks_for_live_trading() {
    assert_eq!(parse(&["live"]).unwrap().command, Command::Live);
    assert_eq!(
        parse(&["replay", "live"]).unwrap().command,
        Command::Replay
    );
    assert_eq!(
        parse(&["--config-dir", "live"]).unwrap().command,
        Command::Paper
    );
}

#[test]
fn both_forms_of_a_flag_parse_alike_anywhere() {
    let forms = |before: &[&str], flag: &str, value: &str, behind: &[&str]| {
        let inline = format!("{flag}={value}");
        let spaced = [before, &[flag, value], behind].concat();
        let joined = [before, &[inline.as_str()], behind].concat();
        assert_eq!(parse(&spaced), parse(&joined));
        parse(&spaced)
    };
    let cli = forms(&["sweep", "dir"], "--rank", "sharpe", &["--parallel"]).unwrap();
    assert_eq!(cli.rank.as_deref(), Some("sharpe"));
    let cli = forms(&["replay"], "--out", "x", &["--window", "w"]).unwrap();
    assert_eq!(cli.journal_dir, None);
    let cli = forms(&["control", "set-param", "k", "v"], "--series", "BTC-5m", &[]).unwrap();
    assert_eq!(
        cli.command,
        Command::Control(ControlSub::SetParam {
            series: Some("BTC-5m".to_owned()),
            key: "k".to_owned(),
            value: "v".to_owned(),
        })
    );
    assert!(forms(&["nonsense"], "--out", "x", &[]).is_err());
    // A flag that wants its value takes what is behind it.
    assert_ne!(parse(&["latency", "--label", "--out", "x"]), parse(&["latency", "--label", "--out=x"]));
}
