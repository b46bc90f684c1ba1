//! Depth capture: the stream's address, lines, day-files and connections.

use updown_bot::depth::{
    combined_depth_url, day_file_name, depth_line, CaptureRun, CaptureStep, ConnectionEnd,
    DayWriter, DropCount, Episode, Handed, HandedStep, Inbound, InboundStep,
};

const BASE: &str = "wss://stream.binance.com:9443";

#[test]
fn combined_url_lists_both_depth_streams() {
    assert_eq!(
        combined_depth_url(BASE),
        "wss://stream.binance.com:9443/stream?streams=\
         btcusdt@depth20@100ms/ethusdt@depth20@100ms"
    );
    // A trailing slash on the base does not double up.
    assert_eq!(
        combined_depth_url("wss://host/"),
        "wss://host/stream?streams=btcusdt@depth20@100ms/ethusdt@depth20@100ms"
    );
}

#[test]
fn depth_line_keeps_payload_and_skips_acks() {
    let line = depth_line(
        123,
        r#"{"stream":"btcusdt@depth20@100ms","data":{"bids":[["1","2"]],"asks":[["3","4"]]}}"#,
    )
    .expect("a stream+data frame yields a line");
    let v: serde_json::Value = serde_json::from_str(line.trim_end()).unwrap();
    assert_eq!(v["recv_ms"], 123);
    assert_eq!(v["stream"], "btcusdt@depth20@100ms");
    assert_eq!(v["data"]["bids"][0][0], "1");
    assert_eq!(v["data"]["asks"][0][1], "4");
    // A subscription ack (no stream+data) is skipped.
    assert!(depth_line(1, r#"{"result":null,"id":1}"#).is_none());
    assert!(depth_line(1, r#"{"stream":"x","data":null}"#).is_none());
    assert!(depth_line(1, "not json").is_none());
}

#[test]
fn depth_line_is_the_object_that_serde_json_writes() {
    let line = depth_line(-5, r#"{ "data": [1, 2.50], "stream": "a\"b", "x": 0 }"#).unwrap();
    assert_eq!(line, "{\"data\":[1,2.5],\"recv_ms\":-5,\"stream\":\"a\\\"b\"}\n");
}

const DAY0_MS: i64 = 1_700_000_000_000;
const DAY1_MS: i64 = DAY0_MS + 86_400_000;

fn depth_frame(symbol: &str) -> String {
    format!(
        r#"{{"stream":"{symbol}@depth20@100ms","data":{{"lastUpdateId":42,"bids":[["100.00","1.5"],["99.99","2.0"]],"asks":[["100.01","3.0"]]}}}}"#
    )
}

#[test]
fn rotates_into_a_new_file_on_a_utc_day_change() {
    let mut w = DayWriter::new();
    let mut files: Vec<(String, Vec<serde_json::Value>)> = Vec::new();
    for (ms, symbol) in [(DAY0_MS, "btcusdt"), (DAY0_MS, "ethusdt"), (DAY1_MS, "btcusdt")] {
        let step = w.write_frame(ms, &depth_frame(symbol)).unwrap();
        if let Some(day) = step.open {
            files.push((day_file_name("binance-depth20-", &day), Vec::new()));
        }
        let value = serde_json::from_str(step.line.trim_end()).unwrap();
        files.last_mut().unwrap().1.push(value);
    }
    // A frame that becomes no line opens no file.
    assert!(w.write_frame(DAY0_MS, "{}").is_none());

    assert_eq!(w.written, 3);
    assert_eq!(w.files, 2, "one file per UTC day");

    assert_eq!(files[0].0, "binance-depth20-20231114.jsonl.gz");
    assert_eq!(files[1].0, "binance-depth20-20231115.jsonl.gz");
    let day0 = &files[0].1;
    let day1 = &files[1].1;
    assert_eq!(day0.len(), 2);
    assert_eq!(day1.len(), 1);
    assert_eq!(day0[0]["recv_ms"], DAY0_MS);
    assert_eq!(day0[0]["data"]["bids"][0][0], "100.00");
    assert_eq!(day1[0]["recv_ms"], DAY1_MS);
}

#[test]
fn reconnects_on_peer_close() {
    let mut run = CaptureRun::new();
    let mut w = DayWriter::new();
    for (symbol, end) in
        [("btcusdt", ConnectionEnd::Ended), ("ethusdt", ConnectionEnd::Stopped)]
    {
        let mut e = Episode::new(DAY0_MS);
        assert_eq!(
            e.on_inbound(Inbound::Data, DAY0_MS),
            InboundStep::Forward { reset_backoff: true }
        );
        assert!(w.write_frame(DAY0_MS, &depth_frame(symbol)).is_some());
        if end == ConnectionEnd::Ended {
            assert_eq!(e.on_inbound(Inbound::Closed, DAY0_MS), InboundStep::Reconnect);
            assert_eq!(run.after(end), CaptureStep::Retry);
        } else {
            assert_eq!(run.after(end), CaptureStep::Finish);
        }
    }
    assert_eq!(w.written, 2);
    assert_eq!(run.reconnects, 1);
}

#[test]
fn backs_off_after_a_connect_failure() {
    let mut run = CaptureRun::new();
    assert_eq!(run.after(ConnectionEnd::NotMade), CaptureStep::Retry);
    assert_eq!(run.reconnects, 0);
}

#[test]
fn connections_end_on_close_failure_and_silence() {
    let mut e = Episode::new(1_000);
    assert_eq!(
        e.on_inbound(Inbound::Data, 2_000),
        InboundStep::Forward { reset_backoff: true }
    );
    assert_eq!(
        e.on_inbound(Inbound::Data, 3_000),
        InboundStep::Forward { reset_backoff: false }
    );
    assert_eq!(e.on_inbound(Inbound::Ping, 4_000), InboundStep::Ignore);
    assert_eq!(e.dead_for(33_999), None);
    assert_eq!(e.dead_for(34_000), Some(30_000));
    assert_eq!(e.on_inbound(Inbound::Closed, 5_000), InboundStep::Reconnect);
    assert_eq!(e.on_inbound(Inbound::Failed, 5_000), InboundStep::Reconnect);
}

#[test]
fn every_thousandth_dropped_frame_warns() {
    let mut d = DropCount::new();
    let mut warned: Vec<u64> = Vec::new();
    for _ in 0..2_500 {
        if let HandedStep::Warn(n) = d.on_handed(Handed::Full) {
            warned.push(n);
        }
    }
    assert_eq!(warned, vec![1_000, 2_000]);
    assert_eq!(d.on_handed(Handed::Taken), HandedStep::Continue);
    assert_eq!(d.on_handed(Handed::WriterGone), HandedStep::Reconnect);
    assert_eq!(d.dropped, 2_500);
}
