//! The price feeds: what their drivers go by, and how a feed run shows them.

use vstd::prelude::*;
use vstd::string::*;

use crate::calendar;
use crate::json;
use crate::screen;
use crate::text;

verus! {

/// The configured feeds.
#[derive(Clone, Debug)]
pub struct FeedsConfig {
    /// The real-time data stream's address.
    pub rtds_url: String,
    /// The time between pings of the real-time data stream, milliseconds.
    pub rtds_ping_interval_ms: i64,
    /// When a topic of the real-time data stream counts as stale, milliseconds.
    pub rtds_stale_after_ms: i64,
    /// The direct Binance address.
    pub binance_ws_url: String,
    /// When a Binance book counts as stale, milliseconds.
    pub binance_stale_after_ms: i64,
    /// When a Binance trade stream counts as stale, milliseconds.
    pub binance_trade_stale_after_ms: i64,
    /// The market channel's address.
    pub clob_market_ws_url: String,
    /// The time between pings of the market channel, milliseconds.
    pub clob_ping_interval_ms: i64,
    /// When a book counts as stale, milliseconds.
    pub clob_book_stale_after_ms: i64,
    /// How long before its opening a window is subscribed, milliseconds.
    pub clob_presubscribe_lead_ms: i64,
    /// The time between two books of a token, milliseconds.
    pub clob_book_publish_interval_ms: i64,
    /// How long after its close a window stays subscribed, milliseconds.
    pub clob_resolution_linger_ms: i64,
    /// How long a connection may take, milliseconds.
    pub ws_connect_timeout_ms: i64,
    /// The first wait before a reconnect, milliseconds.
    pub reconnect_initial_backoff_ms: i64,
    /// The longest wait before a reconnect, milliseconds.
    pub reconnect_max_backoff_ms: i64,
    /// By what a wait grows, as an order key.
    pub reconnect_backoff_multiplier: i64,
}

/// How long to wait between connections.
#[derive(Clone, Copy, PartialEq, Eq, Structural, Debug)]
pub struct BackoffParams {
    /// The first wait, milliseconds.
    pub initial_ms: i64,
    /// The longest wait, milliseconds.
    pub max_ms: i64,
    /// By what a wait grows, as an order key.
    pub multiplier: i64,
}

/// What the real-time data stream's driver goes by.
#[derive(Clone, Debug)]
pub struct RtdsParams {
    /// The address.
    pub url: String,
    /// The time between pings, milliseconds.
    pub ping_interval_ms: i64,
    /// How long a connection may take, milliseconds.
    pub connect_timeout_ms: i64,
    /// The waits between connections.
    pub backoff: BackoffParams,
    /// When a topic counts as stale, milliseconds.
    pub stale_after_ms: i64,
}

/// What the direct Binance driver goes by.
#[derive(Clone, Debug)]
pub struct BinanceParams {
    /// The address.
    pub url: String,
    /// How long a connection may take, milliseconds.
    pub connect_timeout_ms: i64,
    /// The waits between connections.
    pub backoff: BackoffParams,
    /// When a book counts as stale, milliseconds.
    pub stale_after_ms: i64,
    /// When a trade stream counts as stale, milliseconds.
    pub trade_stale_after_ms: i64,
}

/// What the market channel's driver goes by.
#[derive(Clone, Debug)]
pub struct ClobParams {
    /// The address.
    pub url: String,
    /// The time between pings, milliseconds.
    pub ping_interval_ms: i64,
    /// How long a connection may take, milliseconds.
    pub connect_timeout_ms: i64,
    /// The waits between connections.
    pub backoff: BackoffParams,
    /// When a book counts as stale, milliseconds.
    pub book_stale_after_ms: i64,
    /// How long before its opening a window is subscribed, milliseconds.
    pub presubscribe_lead_ms: i64,
    /// The time between two books of a token, milliseconds.
    pub publish_interval_ms: i64,
    /// How long after its close a window stays subscribed, milliseconds.
    pub resolution_linger_ms: i64,
}

/// The waits between connections of the configured feeds.
pub open spec fn backoff_of(cfg: FeedsConfig) -> BackoffParams {
    BackoffParams {
        initial_ms: cfg.reconnect_initial_backoff_ms,
        max_ms: cfg.reconnect_max_backoff_ms,
        multiplier: cfg.reconnect_backoff_multiplier,
    }
}

/// The waits between connections of the configured feeds.
fn backoff_params(cfg: &FeedsConfig) -> (r: BackoffParams)
    ensures
        r == backoff_of(*cfg),
{
    BackoffParams {
        initial_ms: cfg.reconnect_initial_backoff_ms,
        max_ms: cfg.reconnect_max_backoff_ms,
        multiplier: cfg.reconnect_backoff_multiplier,
    }
}

/// What the real-time data stream's driver goes by.
pub fn rtds_params(cfg: &FeedsConfig) -> (r: RtdsParams)
    ensures
        r == (RtdsParams {
            url: cfg.rtds_url,
            ping_interval_ms: cfg.rtds_ping_interval_ms,
            connect_timeout_ms: cfg.ws_connect_timeout_ms,
            backoff: backoff_of(*cfg),
            stale_after_ms: cfg.rtds_stale_after_ms,
        }),
{
    RtdsParams {
        url: cfg.rtds_url.clone(),
        ping_interval_ms: cfg.rtds_ping_interval_ms,
        connect_timeout_ms: cfg.ws_connect_timeout_ms,
        backoff: backoff_params(cfg),
        stale_after_ms: cfg.rtds_stale_after_ms,
    }
}

/// What the direct Binance driver goes by.
pub fn binance_params(cfg: &FeedsConfig) -> (r: BinanceParams)
    ensures
        r == (BinanceParams {
            url: cfg.binance_ws_url,
            connect_timeout_ms: cfg.ws_connect_timeout_ms,
            backoff: backoff_of(*cfg),
            stale_after_ms: cfg.binance_stale_after_ms,
            trade_stale_after_ms: cfg.binance_trade_stale_after_ms,
        }),
{
    BinanceParams {
        url: cfg.binance_ws_url.clone(),
        connect_timeout_ms: cfg.ws_connect_timeout_ms,
        backoff: backoff_params(cfg),
        stale_after_ms: cfg.binance_stale_after_ms,
        trade_stale_after_ms: cfg.binance_trade_stale_after_ms,
    }
}

/// What the market channel's driver goes by.
pub fn clob_params(cfg: &FeedsConfig) -> (r: ClobParams)
    ensures
        r == (ClobParams {
            url: cfg.clob_market_ws_url,
            ping_interval_ms: cfg.clob_ping_interval_ms,
            connect_timeout_ms: cfg.ws_connect_timeout_ms,
            backoff: backoff_of(*cfg),
            book_stale_after_ms: cfg.clob_book_stale_after_ms,
            presubscribe_lead_ms: cfg.clob_presubscribe_lead_ms,
            publish_interval_ms: cfg.clob_book_publish_interval_ms,
            resolution_linger_ms: cfg.clob_resolution_linger_ms,
        }),
{
    ClobParams {
        url: cfg.clob_market_ws_url.clone(),
        ping_interval_ms: cfg.clob_ping_interval_ms,
        connect_timeout_ms: cfg.ws_connect_timeout_ms,
        backoff: backoff_params(cfg),
        book_stale_after_ms: cfg.clob_book_stale_after_ms,
        presubscribe_lead_ms: cfg.clob_presubscribe_lead_ms,
        publish_interval_ms: cfg.clob_book_publish_interval_ms,
        resolution_linger_ms: cfg.clob_resolution_linger_ms,
    }
}

/// How long ago something was, where it was: negative where it lies ahead.
pub fn age_ms(since_ms: Option<i64>, now_ms: i64) -> (r: Option<i64>)
    ensures
        match since_ms {
            Some(ts) => r is Some && r->0 == screen::time_between(ts as int, now_ms as int),
            None => r is None,
        },
{
    match since_ms {
        Some(ts) => Some(screen::ms_between(ts, now_ms)),
        None => None,
    }
}

/// A text, or another where there is none.
pub open spec fn text_or(t: Option<String>, other: Seq<char>) -> Seq<char> {
    match t {
        Some(s) => s@,
        None => other,
    }
}

/// A text, or another where there is none.
pub fn shown_or(t: &Option<String>, other: &str) -> (r: String)
    ensures
        r@ == text_or(*t, other@),
{
    match t {
        Some(s) => s.clone(),
        None => other.to_owned(),
    }
}

/// A text, or a dash.
pub open spec fn text_or_dash(t: Option<String>) -> Seq<char> {
    match t {
        Some(s) => s@,
        None => "-"@,
    }
}

/// A text, or a dash.
pub fn shown_or_dash(t: &Option<String>) -> (r: String)
    ensures
        r@ == text_or_dash(*t),
{
    match t {
        Some(s) => s.clone(),
        None => "-".to_owned(),
    }
}

/// A turn in a stream's health. The stream's three names are as they are shown, and so are the
/// times, in seconds.
#[derive(Clone, Debug)]
pub enum FeedHealth {
    /// No data for a time.
    Stale {
        /// The source.
        source: String,
        /// The asset.
        asset: String,
        /// The kind of price.
        kind: String,
        /// For how long.
        age: String,
    },
    /// Data again.
    Recovered {
        /// The source.
        source: String,
        /// The asset.
        asset: String,
        /// The kind of price.
        kind: String,
        /// After how long.
        gap: String,
    },
}

impl FeedHealth {
    /// The line of a turn.
    pub open spec fn line_spec(self) -> Seq<char> {
        match self {
            FeedHealth::Stale { source, asset, kind, age } => "FEED HEALTH: "@ + source@ + " "@
                + asset@ + " "@ + kind@ + " STALE (no data for "@ + age@ + "s)"@,
            FeedHealth::Recovered { source, asset, kind, gap } => "FEED HEALTH: "@ + source@
                + " "@ + asset@ + " "@ + kind@ + " recovered (gap "@ + gap@ + "s)"@,
        }
    }

    /// The line of a turn.
    pub fn line(&self) -> (r: String)
        ensures
            r@ == self.line_spec(),
    {
        match self {
            FeedHealth::Stale { source, asset, kind, age } => {
                let mut s = "FEED HEALTH: ".to_owned();
                s.append(source.as_str());
                s.append(" ");
                s.append(asset.as_str());
                s.append(" ");
                s.append(kind.as_str());
                s.append(" STALE (no data for ");
                s.append(age.as_str());
                s.append("s)");
                s
            },
            FeedHealth::Recovered { source, asset, kind, gap } => {
                let mut s = "FEED HEALTH: ".to_owned();
                s.append(source.as_str());
                s.append(" ");
                s.append(asset.as_str());
                s.append(" ");
                s.append(kind.as_str());
                s.append(" recovered (gap ");
                s.append(gap.as_str());
                s.append("s)");
                s
            },
        }
    }
}

/// Where a stream stands.
#[derive(Clone, Debug)]
pub struct StreamStatus {
    /// The stream.
    pub name: String,
    /// The last value, where there is one.
    pub last_value: Option<String>,
    /// The age by the exchange's clock, as it is shown, where there is a value.
    pub exchange_age: Option<String>,
    /// The age by the local clock, as it is shown, where there is a value.
    pub local_age: Option<String>,
    /// The ticks so far.
    pub ticks: u64,
    /// Whether the stream is stale.
    pub stale: bool,
}

/// Where a feed stands.
#[derive(Clone, Debug)]
pub struct FeedStatus {
    /// As of when, Unix milliseconds.
    pub at_ms: i64,
    /// The connection.
    pub connection: String,
    /// The reconnects so far.
    pub reconnects: u64,
    /// Each stream.
    pub streams: Vec<StreamStatus>,
}

impl StreamStatus {
    /// The row of a stream.
    pub open spec fn row_spec(self) -> Seq<char> {
        text::padded_right(self.name@, 22) + " "@ + text::padded_left(
            text_or_dash(self.last_value),
            14,
            ' ',
        ) + " "@ + text::padded_left(text_or_dash(self.exchange_age), 8, ' ') + " "@
            + text::padded_left(text_or_dash(self.local_age), 8, ' ') + " "@ + text::padded_left(
            text::digits(self.ticks as nat),
            7,
            ' ',
        ) + "  "@ + (if self.stale {
            "STALE"@
        } else {
            "live"@
        })
    }

    fn row(&self) -> (r: String)
        ensures
            r@ == self.row_spec(),
    {
        let mut s = text::pad_right(self.name.as_str(), 22);
        s.append(" ");
        s.append(text::pad_left(shown_or_dash(&self.last_value).as_str(), 14, ' ').as_str());
        s.append(" ");
        s.append(text::pad_left(shown_or_dash(&self.exchange_age).as_str(), 8, ' ').as_str());
        s.append(" ");
        s.append(text::pad_left(shown_or_dash(&self.local_age).as_str(), 8, ' ').as_str());
        s.append(" ");
        s.append(text::pad_left(text::u64_text(self.ticks).as_str(), 7, ' ').as_str());
        s.append("  ");
        s.append(
            if self.stale {
                "STALE"
            } else {
                "live"
            },
        );
        s
    }
}

/// The rows of some streams, each on a line of its own.
pub open spec fn stream_rows(streams: Seq<StreamStatus>) -> Seq<char>
    decreases streams.len(),
{
    if streams.len() == 0 {
        Seq::empty()
    } else {
        stream_rows(streams.drop_last()) + streams.last().row_spec() + "\n"@
    }
}

impl FeedStatus {
    /// The table's head.
    pub open spec fn head_spec(self) -> Seq<char> {
        "\nfeed at "@ + calendar::fmt_ts_spec(self.at_ms as int) + "  ["@ + self.connection@
            + " | reconnects "@ + text::digits(self.reconnects as nat) + "]\n"@
            + text::padded_right("stream"@, 22) + " "@ + text::padded_left("last value"@, 14, ' ')
            + " "@ + text::padded_left("ex-age"@, 8, ' ') + " "@ + text::padded_left(
            "rx-age"@,
            8,
            ' ',
        ) + " "@ + text::padded_left("ticks"@, 7, ' ') + "  state\n"@
    }

    /// The table: a head, and a row for each stream.
    pub open spec fn table_spec(self) -> Seq<char> {
        self.head_spec() + stream_rows(self.streams@)
    }

    fn head(&self) -> (r: String)
        ensures
            r@ == self.head_spec(),
    {
        let mut s = "\nfeed at ".to_owned();
        s.append(calendar::fmt_ts(self.at_ms).as_str());
        s.append("  [");
        s.append(self.connection.as_str());
        s.append(" | reconnects ");
        s.append(text::u64_text(self.reconnects).as_str());
        s.append("]\n");
        s.append(text::pad_right("stream", 22).as_str());
        s.append(" ");
        s.append(text::pad_left("last value", 14, ' ').as_str());
        s.append(" ");
        s.append(text::pad_left("ex-age", 8, ' ').as_str());
        s.append(" ");
        s.append(text::pad_left("rx-age", 8, ' ').as_str());
        s.append(" ");
        s.append(text::pad_left("ticks", 7, ' ').as_str());
        s.append("  state\n");
        s
    }

    /// The table: a head, and a row for each stream.
    pub fn table(&self) -> (r: String)
        ensures
            r@ == self.table_spec(),
    {
        let mut rows = String::new();
        let mut i: usize = 0;
        assert(self.streams@.subrange(0, 0) =~= Seq::empty());
        while i < self.streams.len()
            invariant
                i <= self.streams@.len(),
                rows@ == stream_rows(self.streams@.subrange(0, i as int)),
            decreases self.streams.len() - i,
        {
            proof {
                let part = self.streams@.subrange(0, i + 1);
                assert(part.drop_last() =~= self.streams@.subrange(0, i as int));
                assert(part.last() == self.streams@[i as int]);
            }
            rows.append(self.streams[i].row().as_str());
            rows.append("\n");
            i = i + 1;
        }
        assert(self.streams@.subrange(0, i as int) =~= self.streams@);
        text::join2(self.head().as_str(), rows.as_str())
    }
}

/// The line of a captured frame: a JSON object of its direction, its text and when it was
/// written.
pub fn raw_line(ts_local_ms: i64, inbound: bool, frame: &str) -> (r: String)
    ensures
        r@ == "{"@ + json::member(
            "dir"@,
            if inbound {
                "in"@
            } else {
                "out"@
            },
        ) + ","@ + json::member("text"@, frame@) + ","@ + json::json_string("ts_local_ms"@) + ":"@
            + text::signed_digits(ts_local_ms as int) + "}\n"@,
{
    let mut s = "{".to_owned();
    s.append(
        json::member_text(
            "dir",
            if inbound {
                "in"
            } else {
                "out"
            },
        ).as_str(),
    );
    s.append(",");
    s.append(json::member_text("text", frame).as_str());
    s.append(",");
    s.append(json::string_text("ts_local_ms").as_str());
    s.append(":");
    s.append(text::i64_text(ts_local_ms).as_str());
    s.append("}\n");
    s
}

/// What a feed run came to.
pub fn run_summary(ticks: u64, health_events: u64, ran_ms: i64) -> (r: String)
    ensures
        r@ == "\nrun summary: "@ + text::digits(ticks as nat) + " price ticks, "@ + text::digits(
            health_events as nat,
        ) + " health events over "@ + text::signed_digits(
            screen::whole_seconds(ran_ms as int),
        ) + "s"@,
{
    let mut s = "\nrun summary: ".to_owned();
    s.append(text::u64_text(ticks).as_str());
    s.append(" price ticks, ");
    s.append(text::u64_text(health_events).as_str());
    s.append(" health events over ");
    s.append(text::i64_text(screen::seconds_in(ran_ms)).as_str());
    s.append("s");
    s
}

} // verus!
