//! The latency benchmark: what it probes, and its report as text.

use vstd::prelude::*;
use vstd::string::*;

use crate::calendar;
use crate::discover::Discovered;
use crate::feed::{shown_or, shown_or_dash, text_or, text_or_dash, FeedsConfig};
use crate::labels;
use crate::text;
use crate::types::MarketInfo;

verus! {

/// An address to time round trips to.
#[derive(Clone, Debug)]
pub struct RestTarget {
    /// The name in the report.
    pub label: String,
    /// The address.
    pub url: String,
}

/// Two tokens to listen to on the market channel.
#[derive(Clone, Debug)]
pub struct MarketWsProbe {
    /// The address.
    pub url: String,
    /// The tokens.
    pub asset_ids: Vec<String>,
}

/// The configured benchmark.
#[derive(Clone, Debug)]
pub struct LatencyConfig {
    /// Round trips to time, for each address.
    pub rest_samples: u32,
    /// Round trips to make first, untimed.
    pub rest_warmup: u32,
    /// The time between round trips, milliseconds.
    pub rest_spacing_ms: i64,
    /// How long a round trip may take, milliseconds.
    pub http_timeout_ms: i64,
    /// How long to listen to a channel, milliseconds.
    pub ws_duration_ms: i64,
    /// Where reports go.
    pub report_dir: String,
}

/// What a benchmark does.
#[derive(Clone, Debug)]
pub struct HarnessParams {
    /// The name of the run.
    pub label: String,
    /// The addresses to time.
    pub rest_targets: Vec<RestTarget>,
    /// Round trips to time, for each address.
    pub rest_samples: u32,
    /// Round trips to make first, untimed.
    pub rest_warmup: u32,
    /// The time between round trips, milliseconds.
    pub rest_spacing_ms: i64,
    /// How long a round trip may take, milliseconds.
    pub http_timeout_ms: i64,
    /// How long a connection may take, milliseconds.
    pub ws_connect_timeout_ms: i64,
    /// How long to listen to a channel, milliseconds.
    pub ws_duration_ms: i64,
    /// What to listen to on the market channel.
    pub market_ws: Option<MarketWsProbe>,
    /// The real-time data stream's address.
    pub rtds_url: String,
    /// The time between pings of the real-time data stream, milliseconds.
    pub rtds_ping_interval_ms: i64,
    /// Where the venue tells its time.
    pub clob_time_url: String,
}

/// The name of a run that was given none.
pub open spec fn label_of(label: Option<&str>) -> Seq<char> {
    match label {
        Some(l) => l@,
        None => "unlabeled"@,
    }
}

/// What a benchmark of the configured feeds does: it times the venue's `/time` and `/ok`, and
/// listens to both channels.
pub fn harness_params(
    feeds: &FeedsConfig,
    clob_rest_url: &str,
    latency: &LatencyConfig,
    label: Option<&str>,
    market_ws: Option<MarketWsProbe>,
) -> (r: HarnessParams)
    ensures
        r.label@ == label_of(label),
        r.rest_targets@.len() == 2,
        r.rest_targets@[0].label@ == "clob/time"@,
        r.rest_targets@[0].url@ == text::without_end_slashes(clob_rest_url@) + "/time"@,
        r.rest_targets@[1].label@ == "clob/ok"@,
        r.rest_targets@[1].url@ == text::without_end_slashes(clob_rest_url@) + "/ok"@,
        r.rest_samples == latency.rest_samples,
        r.rest_warmup == latency.rest_warmup,
        r.rest_spacing_ms == latency.rest_spacing_ms,
        r.http_timeout_ms == latency.http_timeout_ms,
        r.ws_connect_timeout_ms == feeds.ws_connect_timeout_ms,
        r.ws_duration_ms == latency.ws_duration_ms,
        r.market_ws == market_ws,
        r.rtds_url@ == feeds.rtds_url@,
        r.rtds_ping_interval_ms == feeds.rtds_ping_interval_ms,
        r.clob_time_url@ == text::without_end_slashes(clob_rest_url@) + "/time"@,
{
    let base = text::trim_end_slashes(clob_rest_url);
    let mut rest_targets: Vec<RestTarget> = Vec::new();
    rest_targets.push(
        RestTarget { label: "clob/time".to_owned(), url: text::join2(base.as_str(), "/time") },
    );
    rest_targets.push(
        RestTarget { label: "clob/ok".to_owned(), url: text::join2(base.as_str(), "/ok") },
    );
    HarnessParams {
        label: match label {
            Some(l) => l.to_owned(),
            None => "unlabeled".to_owned(),
        },
        rest_targets,
        rest_samples: latency.rest_samples,
        rest_warmup: latency.rest_warmup,
        rest_spacing_ms: latency.rest_spacing_ms,
        http_timeout_ms: latency.http_timeout_ms,
        ws_connect_timeout_ms: feeds.ws_connect_timeout_ms,
        ws_duration_ms: latency.ws_duration_ms,
        market_ws,
        rtds_url: feeds.rtds_url.clone(),
        rtds_ping_interval_ms: feeds.rtds_ping_interval_ms,
        clob_time_url: text::join2(base.as_str(), "/time"),
    }
}

/// The window that is open, where a series was discovered and has one.
pub open spec fn open_window(d: Discovered) -> Option<MarketInfo> {
    match d.windows {
        Ok(w) => w.current,
        Err(_) => None,
    }
}

/// The open window of the first series that has one.
pub open spec fn first_open(all: Seq<Discovered>) -> Option<MarketInfo>
    decreases all.len(),
{
    if all.len() == 0 {
        None
    } else {
        match first_open(all.drop_last()) {
            Some(m) => Some(m),
            None => open_window(all.last()),
        }
    }
}

/// What to listen to on the market channel: both tokens of the first open window, in series
/// order; nothing where no window is open.
pub fn market_probe(all: &Vec<Discovered>, url: &str) -> (r: Option<MarketWsProbe>)
    ensures
        match first_open(all@) {
            Some(m) => {
                &&& r is Some
                &&& r->0.url@ == url@
                &&& r->0.asset_ids@.len() == 2
                &&& r->0.asset_ids@[0]@ == m.up_token@
                &&& r->0.asset_ids@[1]@ == m.down_token@
            },
            None => r is None,
        },
{
    let mut found: Option<&MarketInfo> = None;
    let mut i: usize = 0;
    assert(all@.subrange(0, 0) =~= Seq::empty());
    while i < all.len()
        invariant
            i <= all@.len(),
            match found {
                Some(m) => first_open(all@.subrange(0, i as int)) == Some(*m),
                None => first_open(all@.subrange(0, i as int)) is None,
            },
        decreases all.len() - i,
    {
        proof {
            let part = all@.subrange(0, i + 1);
            assert(part.drop_last() =~= all@.subrange(0, i as int));
            assert(part.last() == all@[i as int]);
        }
        if found.is_none() {
            if let Ok(w) = &all[i].windows {
                if let Some(m) = &w.current {
                    found = Some(m);
                }
            }
        }
        i = i + 1;
    }
    assert(all@.subrange(0, i as int) =~= all@);
    match found {
        Some(m) => {
            let mut asset_ids: Vec<String> = Vec::new();
            asset_ids.push(m.up_token.text.clone());
            asset_ids.push(m.down_token.text.clone());
            Some(MarketWsProbe { url: url.to_owned(), asset_ids })
        },
        None => None,
    }
}

/// Times of a probe; each of the five as it is shown, in milliseconds.
#[derive(Clone, Debug)]
pub struct LatencyStats {
    /// How many times were taken.
    pub count: u64,
    /// The shortest.
    pub min: String,
    /// The median.
    pub p50: String,
    /// The 95th percentile.
    pub p95: String,
    /// The 99th percentile.
    pub p99: String,
    /// The longest.
    pub max: String,
}

/// What the time servers said.
#[derive(Clone, Debug)]
pub struct NtpReading {
    /// The local clock's offset, milliseconds, where it could be told.
    pub offset_ms: Option<i64>,
    /// How many answers it was told from.
    pub samples_used: u64,
    /// How many queries failed.
    pub queries_failed: u64,
    /// The shortest round trip, milliseconds.
    pub min_round_trip_ms: Option<i64>,
}

/// What the venue's clock said.
#[derive(Clone, Debug)]
pub struct ClobTime {
    /// Its offset, milliseconds, where it was told.
    pub delta_ms: Option<i64>,
    /// The round trip, milliseconds, as it is shown, where there was an answer.
    pub rtt: Option<String>,
    /// What went wrong.
    pub error: Option<String>,
}

/// The round trips to an address.
#[derive(Clone, Debug)]
pub struct RestSection {
    /// The address's name.
    pub label: String,
    /// How many failed.
    pub errors: u64,
    /// Their times, where one came back.
    pub stats: Option<LatencyStats>,
    /// What went wrong.
    pub error: Option<String>,
}

/// What was heard on a channel.
#[derive(Clone, Debug)]
pub struct WsSection {
    /// The channel's name.
    pub label: String,
    /// The gaps between messages, where there were any.
    pub gaps: Option<LatencyStats>,
    /// What went wrong.
    pub error: Option<String>,
    /// How long the connection took, milliseconds, as it is shown.
    pub connect: Option<String>,
    /// How long the first message took, milliseconds, as it is shown.
    pub first_message: Option<String>,
    /// The messages.
    pub messages: u64,
    /// How long it was listened to, seconds, as it is shown.
    pub duration: String,
    /// Whether the gaps tell of the venue's traffic rather than of the network.
    pub activity_dependent: bool,
}

/// A benchmark's report.
#[derive(Clone, Debug)]
pub struct LatencyReport {
    /// The name of the run.
    pub label: String,
    /// The report format's version.
    pub schema_version: u64,
    /// When the run began, Unix milliseconds.
    pub started_at_ms: i64,
    /// What the time servers said, where they were asked.
    pub ntp: Option<NtpReading>,
    /// What the venue's clock said, where it was asked.
    pub clob_time: Option<ClobTime>,
    /// The round trips, by address.
    pub rest: Vec<RestSection>,
    /// The channels.
    pub ws: Vec<WsSection>,
}

/// A number with its sign.
pub open spec fn with_sign(n: int) -> Seq<char> {
    if n < 0 {
        text::signed_digits(n)
    } else {
        "+"@ + text::signed_digits(n)
    }
}

/// A number with its sign.
pub fn signed_text(n: i64) -> (r: String)
    ensures
        r@ == with_sign(n as int),
{
    if n < 0 {
        text::i64_text(n)
    } else {
        text::join2("+", text::i64_text(n).as_str())
    }
}

/// What the time servers said, on a line.
pub open spec fn ntp_line(ntp: Option<NtpReading>) -> Seq<char> {
    match ntp {
        Some(n) => match n.offset_ms {
            Some(offset) => "ntp offset      "@ + with_sign(offset as int) + " ms  ("@
                + text::digits(n.samples_used as nat) + " samples, "@ + text::digits(
                n.queries_failed as nat,
            ) + " failed, best rtt "@ + text::signed_digits(
                match n.min_round_trip_ms {
                    Some(ms) => ms as int,
                    None => -1,
                },
            ) + " ms)\n"@,
            None => "ntp offset      UNAVAILABLE ("@ + text::digits(n.queries_failed as nat)
                + " queries failed) — check UDP/123 egress\n"@,
        },
        None => "ntp offset      (not probed)\n"@,
    }
}

fn ntp_row(ntp: &Option<NtpReading>) -> (r: String)
    ensures
        r@ == ntp_line(*ntp),
{
    match ntp {
        Some(n) => match n.offset_ms {
            Some(offset) => {
                let mut s = "ntp offset      ".to_owned();
                s.append(signed_text(offset).as_str());
                s.append(" ms  (");
                s.append(text::u64_text(n.samples_used).as_str());
                s.append(" samples, ");
                s.append(text::u64_text(n.queries_failed).as_str());
                s.append(" failed, best rtt ");
                let best: i64 = match n.min_round_trip_ms {
                    Some(ms) => ms,
                    None => -1,
                };
                s.append(text::i64_text(best).as_str());
                s.append(" ms)\n");
                s
            },
            None => text::join3(
                "ntp offset      UNAVAILABLE (",
                text::u64_text(n.queries_failed).as_str(),
                " queries failed) — check UDP/123 egress\n",
            ),
        },
        None => "ntp offset      (not probed)\n".to_owned(),
    }
}

/// What the venue's clock said, on a line; nothing where it was not asked.
pub open spec fn clob_line(clob: Option<ClobTime>) -> Seq<char> {
    match clob {
        Some(c) => match (c.delta_ms, c.rtt) {
            (Some(delta), Some(rtt)) => "clob /time      delta "@ + with_sign(delta as int)
                + " ms vs local (±1000 ms server resolution; rtt "@ + rtt@ + " ms)\n"@,
            _ => "clob /time      FAILED: "@ + text_or(c.error, "unknown"@) + "\n"@,
        },
        None => Seq::empty(),
    }
}

fn clob_row(clob: &Option<ClobTime>) -> (r: String)
    ensures
        r@ == clob_line(*clob),
{
    match clob {
        Some(c) => match (c.delta_ms, &c.rtt) {
            (Some(delta), Some(rtt)) => text::join5(
                "clob /time      delta ",
                signed_text(delta).as_str(),
                " ms vs local (±1000 ms server resolution; rtt ",
                rtt.as_str(),
                " ms)\n",
            ),
            _ => text::join3(
                "clob /time      FAILED: ",
                shown_or(&c.error, "unknown").as_str(),
                "\n",
            ),
        },
        None => String::new(),
    }
}

/// Eight columns of the table.
pub open spec fn columns(
    label: Seq<char>,
    count: Seq<char>,
    errors: Seq<char>,
    min: Seq<char>,
    p50: Seq<char>,
    p95: Seq<char>,
    p99: Seq<char>,
    max: Seq<char>,
) -> Seq<char> {
    text::padded_right(label, 14) + " "@ + text::padded_left(count, 6, ' ') + " "@
        + text::padded_left(errors, 6, ' ') + " "@ + text::padded_left(min, 8, ' ') + " "@
        + text::padded_left(p50, 8, ' ') + " "@ + text::padded_left(p95, 8, ' ') + " "@
        + text::padded_left(p99, 8, ' ') + " "@ + text::padded_left(max, 8, ' ') + "\n"@
}

fn columns_text(
    label: &str,
    count: &str,
    errors: &str,
    min: &str,
    p50: &str,
    p95: &str,
    p99: &str,
    max: &str,
) -> (r: String)
    ensures
        r@ == columns(label@, count@, errors@, min@, p50@, p95@, p99@, max@),
{
    let mut s = text::pad_right(label, 14);
    s.append(" ");
    s.append(text::pad_left(count, 6, ' ').as_str());
    s.append(" ");
    s.append(text::pad_left(errors, 6, ' ').as_str());
    s.append(" ");
    s.append(text::pad_left(min, 8, ' ').as_str());
    s.append(" ");
    s.append(text::pad_left(p50, 8, ' ').as_str());
    s.append(" ");
    s.append(text::pad_left(p95, 8, ' ').as_str());
    s.append(" ");
    s.append(text::pad_left(p99, 8, ' ').as_str());
    s.append(" ");
    s.append(text::pad_left(max, 8, ' ').as_str());
    s.append("\n");
    s
}

/// The row of some times.
pub open spec fn stats_line(label: Seq<char>, errors: nat, stats: LatencyStats) -> Seq<char> {
    columns(
        label,
        text::digits(stats.count as nat),
        text::digits(errors),
        stats.min@,
        stats.p50@,
        stats.p95@,
        stats.p99@,
        stats.max@,
    )
}

fn stats_row(label: &str, errors: u64, stats: &LatencyStats) -> (r: String)
    ensures
        r@ == stats_line(label@, errors as nat, *stats),
{
    columns_text(
        label,
        text::u64_text(stats.count).as_str(),
        text::u64_text(errors).as_str(),
        stats.min.as_str(),
        stats.p50.as_str(),
        stats.p95.as_str(),
        stats.p99.as_str(),
        stats.max.as_str(),
    )
}

/// The row of an address.
pub open spec fn rest_line(rest: RestSection) -> Seq<char> {
    match rest.stats {
        Some(stats) => stats_line(rest.label@, rest.errors as nat, stats),
        None => text::padded_right(rest.label@, 14) + " FAILED: "@ + text_or(
            rest.error,
            "all samples errored"@,
        ) + "\n"@,
    }
}

fn rest_row(rest: &RestSection) -> (r: String)
    ensures
        r@ == rest_line(*rest),
{
    match &rest.stats {
        Some(stats) => stats_row(rest.label.as_str(), rest.errors, stats),
        None => {
            let mut s = text::pad_right(rest.label.as_str(), 14);
            s.append(" FAILED: ");
            s.append(shown_or(&rest.error, "all samples errored").as_str());
            s.append("\n");
            s
        },
    }
}

/// The first row of a channel: its gaps.
pub open spec fn gaps_line(ws: WsSection) -> Seq<char> {
    let label = ws.label@ + " gaps"@;
    match (ws.gaps, ws.error) {
        (Some(gaps), _) => stats_line(label, 0, gaps),
        (None, Some(error)) => text::padded_right(label, 14) + " FAILED: "@ + error@ + "\n"@,
        (None, None) => text::padded_right(label, 14) + " (no messages)\n"@,
    }
}

fn gaps_row(ws: &WsSection) -> (r: String)
    ensures
        r@ == gaps_line(*ws),
{
    let label = text::join2(ws.label.as_str(), " gaps");
    match (&ws.gaps, &ws.error) {
        (Some(gaps), _) => stats_row(label.as_str(), 0, gaps),
        (None, Some(error)) => {
            let mut s = text::pad_right(label.as_str(), 14);
            s.append(" FAILED: ");
            s.append(error.as_str());
            s.append("\n");
            s
        },
        (None, None) => text::join2(
            text::pad_right(label.as_str(), 14).as_str(),
            " (no messages)\n",
        ),
    }
}

/// The second row of a channel: how it went.
pub open spec fn channel_line(ws: WsSection) -> Seq<char> {
    text::padded_right(""@, 14) + "   connect "@ + text_or_dash(ws.connect)
        + " ms, subscribe->first msg "@ + text_or_dash(ws.first_message) + " ms, "@ + text::digits(
        ws.messages as nat,
    ) + " msgs over "@ + ws.duration@ + " s"@ + (if ws.activity_dependent {
        " [activity-dependent: gaps reflect venue traffic, not the network]"@
    } else {
        ""@
    }) + (match ws.error {
        Some(e) => " [ended early: "@ + e@ + "]"@,
        None => ""@,
    }) + "\n"@
}

fn channel_row(ws: &WsSection) -> (r: String)
    ensures
        r@ == channel_line(*ws),
{
    let ended = match &ws.error {
        Some(e) => text::join3(" [ended early: ", e.as_str(), "]"),
        None => "".to_owned(),
    };
    let mut s = text::pad_right("", 14);
    s.append("   connect ");
    s.append(shown_or_dash(&ws.connect).as_str());
    s.append(" ms, subscribe->first msg ");
    s.append(shown_or_dash(&ws.first_message).as_str());
    s.append(" ms, ");
    s.append(text::u64_text(ws.messages).as_str());
    s.append(" msgs over ");
    s.append(ws.duration.as_str());
    s.append(" s");
    s.append(
        if ws.activity_dependent {
            " [activity-dependent: gaps reflect venue traffic, not the network]"
        } else {
            ""
        },
    );
    s.append(ended.as_str());
    s.append("\n");
    s
}

/// The rows of some addresses.
pub open spec fn rest_lines(all: Seq<RestSection>) -> Seq<char>
    decreases all.len(),
{
    if all.len() == 0 {
        Seq::empty()
    } else {
        rest_lines(all.drop_last()) + rest_line(all.last())
    }
}

/// The rows of some channels.
pub open spec fn ws_lines(all: Seq<WsSection>) -> Seq<char>
    decreases all.len(),
{
    if all.len() == 0 {
        Seq::empty()
    } else {
        ws_lines(all.drop_last()) + gaps_line(all.last()) + channel_line(all.last())
    }
}

fn rest_rows(all: &Vec<RestSection>) -> (r: String)
    ensures
        r@ == rest_lines(all@),
{
    let mut rows = String::new();
    let mut i: usize = 0;
    assert(all@.subrange(0, 0) =~= Seq::empty());
    while i < all.len()
        invariant
            i <= all@.len(),
            rows@ == rest_lines(all@.subrange(0, i as int)),
        decreases all.len() - i,
    {
        proof {
            let part = all@.subrange(0, i + 1);
            assert(part.drop_last() =~= all@.subrange(0, i as int));
            assert(part.last() == all@[i as int]);
        }
        rows.append(rest_row(&all[i]).as_str());
        i = i + 1;
    }
    assert(all@.subrange(0, i as int) =~= all@);
    rows
}

fn ws_rows(all: &Vec<WsSection>) -> (r: String)
    ensures
        r@ == ws_lines(all@),
{
    let mut rows = String::new();
    let mut i: usize = 0;
    assert(all@.subrange(0, 0) =~= Seq::empty());
    while i < all.len()
        invariant
            i <= all@.len(),
            rows@ == ws_lines(all@.subrange(0, i as int)),
        decreases all.len() - i,
    {
        proof {
            let part = all@.subrange(0, i + 1);
            assert(part.drop_last() =~= all@.subrange(0, i as int));
            assert(part.last() == all@[i as int]);
        }
        rows.append(gaps_row(&all[i]).as_str());
        rows.append(channel_row(&all[i]).as_str());
        i = i + 1;
    }
    assert(all@.subrange(0, i as int) =~= all@);
    rows
}

impl LatencyReport {
    /// The report as text.
    pub open spec fn summary_spec(self) -> Seq<char> {
        "\nlatency report — label "@ + text::debug_quoted(self.label@) + " (schema v"@
            + text::digits(self.schema_version as nat) + ")\n"@ + ntp_line(self.ntp) + clob_line(
            self.clob_time,
        ) + "\n"@ + columns(
            "probe"@,
            "count"@,
            "errors"@,
            "min"@,
            "p50"@,
            "p95"@,
            "p99"@,
            "max"@,
        ) + rest_lines(self.rest@) + ws_lines(self.ws@)
    }

    /// The report as text.
    pub fn summary(&self) -> (r: String)
        ensures
            r@ == self.summary_spec(),
    {
        let mut s = "\nlatency report — label ".to_owned();
        s.append(text::quoted(self.label.as_str()).as_str());
        s.append(" (schema v");
        s.append(text::u64_text(self.schema_version).as_str());
        s.append(")\n");
        s.append(ntp_row(&self.ntp).as_str());
        s.append(clob_row(&self.clob_time).as_str());
        s.append("\n");
        s.append(
            columns_text("probe", "count", "errors", "min", "p50", "p95", "p99", "max").as_str(),
        );
        s.append(rest_rows(&self.rest).as_str());
        s.append(ws_rows(&self.ws).as_str());
        s
    }
}

/// A path inside a directory: joined by a slash, which is not doubled.
pub open spec fn inside(dir: Seq<char>, name: Seq<char>) -> Seq<char> {
    if dir.len() == 0 || dir.last() == '/' {
        dir + name
    } else {
        dir + "/"@ + name
    }
}

/// A path inside a directory.
pub fn path_inside(dir: &str, name: &str) -> (r: String)
    ensures
        r@ == inside(dir@, name@),
{
    let n: usize = dir.unicode_len();
    if n == 0 || dir.get_char(n - 1) == '/' {
        text::join2(dir, name)
    } else {
        text::join3(dir, "/", name)
    }
}

/// Where a report goes: where it was asked for, else into the report directory, under a name of
/// the run's label and beginning.
pub fn report_path(label: &str, started_at_ms: i64, out: Option<&str>, report_dir: &str) -> (r:
    String)
    ensures
        match out {
            Some(path) => r@ == path@,
            None => r@ == inside(
                report_dir@,
                "latency-"@ + labels::sanitized(label@) + "-"@ + calendar::file_stamp_spec(
                    started_at_ms as int,
                ) + ".json"@,
            ),
        },
{
    match out {
        Some(path) => path.to_owned(),
        None => {
            let name = text::join5(
                "latency-",
                labels::sanitize(label).as_str(),
                "-",
                calendar::file_stamp(started_at_ms).as_str(),
                ".json",
            );
            path_inside(report_dir, name.as_str())
        },
    }
}

/// The market that is probed is the first of those discovered that is open now.
pub proof fn law_first_open_market_is_probed(all: Seq<Discovered>, i: int)
    ensures
        0 <= i < all.len() && open_window(all[i]) is Some && (forall|j: int|
            0 <= j < i ==> open_window(#[trigger] all[j]) is None) ==> first_open(all)
            == open_window(all[i]),
        (forall|j: int| 0 <= j < all.len() ==> open_window(#[trigger] all[j]) is None) ==> first_open(
            all,
        ) is None,
    decreases all.len(),
{
    if all.len() > 0 {
        let rest = all.drop_last();
        law_first_open_market_is_probed(rest, i);
        assert(forall|j: int| 0 <= j < rest.len() ==> #[trigger] rest[j] == all[j]);
        assert(all.last() == all[all.len() - 1]);
    }
}

/// A discovered series has an open market where its discovery succeeded and a window is current.
pub proof fn law_open_window_is_the_current_one(d: Discovered)
    ensures
        d.windows is Err ==> open_window(d) is None,
        d.windows matches Ok(w) ==> open_window(d) == w.current,
{
}

/// A name stands in its directory: the directory comes first and the name last, with a slash
/// between them unless the directory is none or ends with one.
pub proof fn law_name_stands_in_its_directory(dir: Seq<char>, name: Seq<char>)
    ensures
        ({
            let path = inside(dir, name);
            let slash: int = if dir.len() == 0 || dir.last() == '/' {
                0
            } else {
                1
            };
            &&& path.len() == dir.len() + slash + name.len()
            &&& path.subrange(0, dir.len() as int) == dir
            &&& path.subrange(dir.len() + slash, path.len() as int) == name
            &&& slash == 1 ==> path[dir.len() as int] == '/'
        }),
{
    reveal_strlit("/");
    let path = inside(dir, name);
    assert(path.subrange(0, dir.len() as int) == dir);
    if dir.len() == 0 || dir.last() == '/' {
        assert(path.subrange(dir.len() as int, path.len() as int) == name);
    } else {
        assert(path.subrange((dir.len() + 1) as int, path.len() as int) == name);
    }
}

/// A number is shown with its sign, also where it is not negative.
pub proof fn law_sign_is_shown(n: int)
    ensures
        n >= 0 ==> with_sign(n).len() > 0 && with_sign(n)[0] == '+' && with_sign(n).drop_first()
            == text::signed_digits(n),
        n < 0 ==> with_sign(n) == text::signed_digits(n),
{
    reveal_strlit("+");
    if n >= 0 {
        assert(with_sign(n).drop_first() == text::signed_digits(n));
    }
}

} // verus!
