//! Feeds, and the read-only tools around them: discovery, latency and comparison.

use updown_bot::compare::{
    comparison_summary, comparison_text, AssetSummary, BasisSummary, LeadSummary, MatchSummary,
    StreamSummary,
};
use updown_bot::decimal::{Amount, Figure};
use updown_bot::discover::{fmt_resolution, snapshot_text, Discovered, SeriesWindows};
use updown_bot::feed::{
    age_ms, binance_params, clob_params, raw_line, rtds_params, run_summary, shown_or,
    shown_or_dash, FeedHealth, FeedStatus, FeedsConfig, StreamStatus,
};
use updown_bot::feed_source::FeedSource;
use updown_bot::floatkey::{bits_of_key, key_of_bits};
use updown_bot::latency::{
    harness_params, market_probe, path_inside, report_path, signed_text, ClobTime, LatencyConfig,
    LatencyReport, LatencyStats, NtpReading, RestSection, WsSection,
};
use updown_bot::types::{
    Asset, Id, MarketInfo, ResolutionKind, Series, WindowDuration, WindowId,
};

fn feeds() -> FeedsConfig {
    FeedsConfig {
        rtds_url: "wss://ws-live-data.example".to_owned(),
        rtds_ping_interval_ms: 5_000,
        rtds_stale_after_ms: 4_000,
        binance_ws_url: "wss://stream.binance.com:9443".to_owned(),
        binance_stale_after_ms: 2_000,
        binance_trade_stale_after_ms: 12_000,
        clob_market_ws_url: "wss://clob.example".to_owned(),
        clob_ping_interval_ms: 5_000,
        clob_book_stale_after_ms: 3_000,
        clob_presubscribe_lead_ms: 60_000,
        clob_book_publish_interval_ms: 100,
        clob_resolution_linger_ms: 120_000,
        ws_connect_timeout_ms: 5_000,
        reconnect_initial_backoff_ms: 250,
        reconnect_max_backoff_ms: 10_000,
        reconnect_backoff_multiplier: key_of_bits(2.0f64.to_bits()),
    }
}

fn float(key: i64) -> f64 {
    f64::from_bits(bits_of_key(key))
}

#[test]
fn feeds_section_maps_one_to_one_for_rtds() {
    let cfg = feeds();
    let params = rtds_params(&cfg);
    assert_eq!(params.url, cfg.rtds_url);
    assert_eq!(params.ping_interval_ms, 5_000);
    assert_eq!(params.connect_timeout_ms, 5_000);
    assert_eq!(params.backoff.initial_ms, 250);
    assert_eq!(params.backoff.max_ms, 10_000);
    assert!((float(params.backoff.multiplier) - 2.0).abs() < f64::EPSILON);
    assert_eq!(params.stale_after_ms, cfg.rtds_stale_after_ms);
}

#[test]
fn feeds_section_maps_one_to_one_for_binance() {
    let cfg = feeds();
    let params = binance_params(&cfg);
    assert_eq!(params.url, cfg.binance_ws_url);
    assert_eq!(params.url, "wss://stream.binance.com:9443", "base URL, no path");
    assert_eq!(params.connect_timeout_ms, 5_000);
    assert_eq!(params.backoff.initial_ms, 250);
    assert_eq!(params.backoff.max_ms, 10_000);
    assert!((float(params.backoff.multiplier) - 2.0).abs() < f64::EPSILON);
    assert_eq!(params.stale_after_ms, cfg.binance_stale_after_ms);
    assert_eq!(params.trade_stale_after_ms, cfg.binance_trade_stale_after_ms);
}

#[test]
fn feeds_section_maps_one_to_one_for_clob() {
    let cfg = feeds();
    let params = clob_params(&cfg);
    assert_eq!(params.url, cfg.clob_market_ws_url);
    assert_eq!(params.ping_interval_ms, 5_000);
    assert_eq!(params.connect_timeout_ms, 5_000);
    assert_eq!(params.backoff.initial_ms, 250);
    assert_eq!(params.backoff.max_ms, 10_000);
    assert!((float(params.backoff.multiplier) - 2.0).abs() < f64::EPSILON);
    assert_eq!(params.book_stale_after_ms, cfg.clob_book_stale_after_ms);
    assert_eq!(params.presubscribe_lead_ms, cfg.clob_presubscribe_lead_ms);
    assert_eq!(params.publish_interval_ms, cfg.clob_book_publish_interval_ms);
    assert_eq!(params.resolution_linger_ms, cfg.clob_resolution_linger_ms);
}

#[test]
fn feed_source_parses_and_rejects() {
    assert_eq!(FeedSource::parse("rtds"), Ok(FeedSource::Rtds));
    assert_eq!(FeedSource::parse("binance"), Ok(FeedSource::Binance));
    assert!(FeedSource::parse("coinbase").is_err());
    assert!(FeedSource::parse("RTDS").is_err(), "case-sensitive");
    assert_eq!(FeedSource::default(), FeedSource::Rtds);
}

#[test]
fn ages_format_for_display() {
    let now = 10_000;
    let fmt_age = |since: Option<i64>| {
        shown_or_dash(&age_ms(since, now).map(|ms| format!("{:.1}s", ms as f64 / 1000.0)))
    };
    assert_eq!(age_ms(None, now), None);
    assert_eq!(age_ms(Some(9_500), now), Some(500));
    assert_eq!(age_ms(Some(0), now), Some(10_000));
    assert_eq!(age_ms(Some(10_200), now), Some(-200));
    assert_eq!(fmt_age(None), "-");
    assert_eq!(fmt_age(Some(9_500)), "0.5s");
    assert_eq!(fmt_age(Some(0)), "10.0s");
    assert_eq!(fmt_age(Some(10_200)), "-0.2s");
}

#[test]
fn ages_beyond_the_clock_stop_at_its_ends() {
    assert_eq!(age_ms(Some(i64::MIN), i64::MAX), Some(i64::MAX));
    assert_eq!(age_ms(Some(i64::MAX), i64::MIN), Some(i64::MIN));
}

#[test]
fn a_feed_table_has_a_row_per_stream() {
    let status = FeedStatus {
        at_ms: 0,
        connection: "Connected".to_owned(),
        reconnects: 2,
        streams: vec![
            StreamStatus {
                name: "chainlink:BTC".to_owned(),
                last_value: Some("63000.5".to_owned()),
                exchange_age: Some("0.5s".to_owned()),
                local_age: Some("0.1s".to_owned()),
                ticks: 12,
                stale: false,
            },
            StreamStatus {
                name: "binance:ETH".to_owned(),
                last_value: None,
                exchange_age: None,
                local_age: None,
                ticks: 0,
                stale: true,
            },
        ],
    };
    let expected = format!(
        "\nfeed at 1970-01-01T00:00:00Z  [Connected | reconnects 2]\n{:<22} {:>14} {:>8} {:>8} {:>7}  state\n{:<22} {:>14} {:>8} {:>8} {:>7}  {}\n{:<22} {:>14} {:>8} {:>8} {:>7}  {}\n",
        "stream", "last value", "ex-age", "rx-age", "ticks",
        "chainlink:BTC", "63000.5", "0.5s", "0.1s", 12, "live",
        "binance:ETH", "-", "-", "-", 0, "STALE",
    );
    assert_eq!(status.table(), expected);
}

#[test]
fn feed_lines() {
    let stale = FeedHealth::Stale {
        source: "rtds".to_owned(),
        asset: "BTC".to_owned(),
        kind: "chainlink".to_owned(),
        age: "5.0".to_owned(),
    };
    assert_eq!(stale.line(), "FEED HEALTH: rtds BTC chainlink STALE (no data for 5.0s)");
    let back = FeedHealth::Recovered {
        source: "rtds".to_owned(),
        asset: "BTC".to_owned(),
        kind: "chainlink".to_owned(),
        gap: "7.5".to_owned(),
    };
    assert_eq!(back.line(), "FEED HEALTH: rtds BTC chainlink recovered (gap 7.5s)");
    assert!(run_summary(3, 1, 65_999).contains("65s"));
    assert_eq!(shown_or(&None, "x"), "x");
}

#[test]
fn a_raw_line_is_the_object_that_serde_json_writes() {
    let mut object = serde_json::Map::new();
    object.insert("ts_local_ms".to_owned(), serde_json::Value::from(-5));
    object.insert("dir".to_owned(), serde_json::Value::from("in"));
    object.insert("text".to_owned(), serde_json::Value::from("{\"a\":\"\\n\"}"));
    let expected = format!("{}\n", serde_json::Value::Object(object));
    assert_eq!(raw_line(-5, true, "{\"a\":\"\\n\"}"), expected);
    assert!(raw_line(1, false, "x").contains("\"dir\":\"out\""));
}

fn btc5() -> Series {
    Series { asset: Asset::Btc, duration: WindowDuration::M5 }
}

fn market(open_ms: i64) -> MarketInfo {
    let amount = |t: &str| Amount::parse(t).unwrap();
    let figure = |t: &str| Figure::parse(t).unwrap();
    MarketInfo {
        window: WindowId { series: btc5(), open_ms },
        event_slug: format!("btc-updown-5m-{open_ms}"),
        condition_id: Id::new("0x11"),
        up_token: Id::new("111"),
        down_token: Id::new("222"),
        close_ms: open_ms + 300_000,
        tick_size: amount("0.01"),
        fee_rate: figure("0.07"),
        rebate_rate: figure("0.20"),
        fees_enabled: true,
        taker_only: true,
        min_order_size: amount("5"),
        neg_risk: false,
        resolution_kind: ResolutionKind::ChainlinkDataStream,
        resolution_raw: "https://data.chain.link/streams/btc-usd".to_owned(),
    }
}

fn found() -> Vec<Discovered> {
    vec![
        Discovered {
            series: Series { asset: Asset::Eth, duration: WindowDuration::M5 },
            windows: Err("timed out".to_owned()),
        },
        Discovered {
            series: btc5(),
            windows: Ok(
                SeriesWindows {
                    series: btc5(),
                    current: Some(market(0)),
                    upcoming: vec![market(300_000), market(600_000)],
                },
            ),
        },
    ]
}

#[test]
fn a_discovery_snapshot_as_text() {
    let text = snapshot_text(&found(), 60_000);
    let expected = "discovery snapshot at 1970-01-01T00:01:00Z (now = 60000 ms)

ETH-5m   ERROR: timed out

BTC-5m   (2 upcoming)
  current btc-updown-5m-0   1970-01-01T00:00:00Z -> 1970-01-01T00:05:00Z   closes in 04:00
    cid   0x11
    up    111
    down  222
    tick 0.01   min 5 sh   fee 0.07 taker-only (rebate 0.20, enabled)   neg_risk false   resolution chainlink-data-stream [https://data.chain.link/streams/btc-usd]
  next    btc-updown-5m-300000   opens 1970-01-01T00:05:00Z (in 04:00)
  next+1  btc-updown-5m-600000   opens 1970-01-01T00:10:00Z (in 09:00)

1 of 6 series FAILED \u{2014} see ERROR lines above
";
    assert_eq!(text, expected);
}

#[test]
fn a_clean_discovery_says_so() {
    let all = vec![Discovered {
        series: btc5(),
        windows: Ok(SeriesWindows { series: btc5(), current: None, upcoming: Vec::new() }),
    }];
    let text = snapshot_text(&all, 0);
    assert!(text.contains("  current (none \u{2014} between windows right now)\n"), "{text}");
    assert!(text.ends_with("\nall 6 series discovered OK\n"), "{text}");
    let mut m = market(0);
    m.resolution_kind = ResolutionKind::Other;
    assert_eq!(
        fmt_resolution(&m),
        "OTHER/UNKNOWN [https://data.chain.link/streams/btc-usd]"
    );
}

fn latency_config() -> LatencyConfig {
    LatencyConfig {
        rest_samples: 50,
        rest_warmup: 3,
        rest_spacing_ms: 100,
        http_timeout_ms: 4_000,
        ws_duration_ms: 30_000,
        report_dir: "data/latency".to_owned(),
    }
}

#[test]
fn a_benchmark_goes_by_the_configured_feeds() {
    let probe = market_probe(&found(), "wss://clob.example");
    assert_eq!(probe.as_ref().unwrap().asset_ids, vec!["111".to_owned(), "222".to_owned()]);
    let p = harness_params(&feeds(), "https://clob.example//", &latency_config(), None, probe);
    assert_eq!(p.label, "unlabeled");
    assert_eq!(p.rest_targets[0].url, "https://clob.example/time");
    assert_eq!(p.rest_targets[1].url, "https://clob.example/ok");
    assert_eq!(p.rest_targets[1].label, "clob/ok");
    assert_eq!(p.clob_time_url, "https://clob.example/time");
    assert_eq!(p.ws_connect_timeout_ms, 5_000);
    assert!(market_probe(&Vec::new(), "wss://clob.example").is_none());
}

fn stats() -> LatencyStats {
    LatencyStats {
        count: 50,
        min: "1.0".to_owned(),
        p50: "2.0".to_owned(),
        p95: "3.0".to_owned(),
        p99: "4.0".to_owned(),
        max: "5.0".to_owned(),
    }
}

#[test]
fn a_latency_report_as_text() {
    let report = LatencyReport {
        label: "fra".to_owned(),
        schema_version: 1,
        started_at_ms: 0,
        ntp: Some(
            NtpReading {
                offset_ms: Some(-3),
                samples_used: 4,
                queries_failed: 1,
                min_round_trip_ms: Some(12),
            },
        ),
        clob_time: Some(ClobTime { delta_ms: None, rtt: None, error: None }),
        rest: vec![
            RestSection { label: "clob/time".to_owned(), errors: 2, stats: Some(stats()), error: None },
            RestSection { label: "clob/ok".to_owned(), errors: 50, stats: None, error: None },
        ],
        ws: vec![WsSection {
            label: "rtds".to_owned(),
            gaps: None,
            error: Some("closed".to_owned()),
            connect: Some("10.5".to_owned()),
            first_message: None,
            messages: 0,
            duration: "30".to_owned(),
            activity_dependent: true,
        }],
    };
    let expected = format!(
        "\nlatency report \u{2014} label \"fra\" (schema v1)\nntp offset      -3 ms  (4 samples, 1 failed, best rtt 12 ms)\nclob /time      FAILED: unknown\n\n{:<14} {:>6} {:>6} {:>8} {:>8} {:>8} {:>8} {:>8}\n{:<14} {:>6} {:>6} {:>8} {:>8} {:>8} {:>8} {:>8}\n{:<14} FAILED: all samples errored\n{:<14} FAILED: closed\n{:<14}   connect 10.5 ms, subscribe->first msg - ms, 0 msgs over 30 s [activity-dependent: gaps reflect venue traffic, not the network] [ended early: closed]\n",
        "probe", "count", "errors", "min", "p50", "p95", "p99", "max",
        "clob/time", 50, 2, "1.0", "2.0", "3.0", "4.0", "5.0",
        "clob/ok", "rtds gaps", "",
    );
    assert_eq!(report.summary(), expected);
}

#[test]
fn reports_are_filed_by_label_and_time() {
    let path = report_path("fra 1/2", 0, None, "data/latency");
    assert!(path.starts_with("data/latency/"), "{path}");
    assert!(path.ends_with(".json"), "{path}");
    assert!(!path[13..].contains('/'), "{path}");
    assert_eq!(report_path("fra", 0, Some("here.json"), "data/latency"), "here.json");
    assert_eq!(path_inside("", "a"), "a");
    assert_eq!(path_inside("d/", "a"), "d/a");
    assert_eq!(path_inside("d", "a"), "d/a");
    assert_eq!((signed_text(5), signed_text(-5), signed_text(0)), ("+5".to_owned(), "-5".to_owned(), "+0".to_owned()));
}

#[test]
fn a_comparison_as_text() {
    let summary = AssetSummary {
        ticker: "BTC".to_owned(),
        streams: vec![StreamSummary {
            name: "chainlink".to_owned(),
            ticks: 60,
            rate: "1.0".to_owned(),
            latest: Some("63000".to_owned()),
            age: None,
        }],
        bases: vec![BasisSummary {
            a: "chainlink".to_owned(),
            b: "binance".to_owned(),
            mean: "+1.25".to_owned(),
            p50: "-0.50".to_owned(),
            samples: 9,
        }],
        leads: vec![LeadSummary {
            a: "binance".to_owned(),
            b: "chainlink".to_owned(),
            lag_ms: -300,
            correlation: "0.912".to_owned(),
            samples: 8,
        }],
        match_lags: vec![MatchSummary {
            a: "binance".to_owned(),
            b: "chainlink".to_owned(),
            p50_ms: 700,
            p95_ms: 1_200,
            matches: 5,
            percent: "83".to_owned(),
        }],
    };
    let expected = format!(
        "\n=== feed comparison at 1970-01-01T00:00:00Z (rolling 10 min window) ===\n\nBTC\n  {:<14} {:>7} {:>9} {:>14} {:>8}\n  {:<14} {:>7} {:>8}/s {:>14} {:>8}\n  basis  {:<12} vs {:<12} mean {:>8} bps   p50 {:>8} bps   (n=9)\n  xcorr  {:<12} vs {:<12} first TRAILS by 300 ms   (corr 0.912, n=8)\n  match  {:<12} -> {:<12} p50 {:>5} ms   p95 {:>5} ms   (5 matched, 83%)\n",
        "stream", "ticks", "rate", "latest", "age",
        "chainlink", 60, "1.0", "63000", "-",
        "chainlink", "binance", "+1.25", "-0.50",
        "binance", "chainlink",
        "binance", "chainlink", 700, 1_200,
    );
    assert_eq!(comparison_text(&vec![summary], 0, 10), expected);
    let empty = comparison_text(&Vec::new(), 0, 10);
    assert!(empty.ends_with("(no ticks buffered yet)\n"), "{empty}");
    assert_eq!(comparison_summary(7, 61_000), "\nrun summary: 7 price ticks over 61s");
}
