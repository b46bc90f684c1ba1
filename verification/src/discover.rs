//! The windows that discovery found, as text.

use vstd::prelude::*;
use vstd::string::*;

use crate::calendar;
use crate::control::{bool_text, bool_word};
use crate::screen;
use crate::text;
use crate::types::{MarketInfo, ResolutionKind, Series};

verus! {

/// The windows of a series.
#[derive(Clone, Debug)]
pub struct SeriesWindows {
    /// The series.
    pub series: Series,
    /// The window that is open, where one is.
    pub current: Option<MarketInfo>,
    /// The windows to come, next first.
    pub upcoming: Vec<MarketInfo>,
}

/// What became of a series.
#[derive(Debug)]
pub struct Discovered {
    /// The series.
    pub series: Series,
    /// Its windows, or what went wrong.
    pub windows: Result<SeriesWindows, String>,
}

impl ResolutionKind {
    /// What decides a market's outcome, in a word.
    pub open spec fn text_spec(self) -> Seq<char> {
        match self {
            ResolutionKind::ChainlinkDataStream => "chainlink-data-stream"@,
            ResolutionKind::BinanceCandle => "binance-candle"@,
            ResolutionKind::Other => "OTHER/UNKNOWN"@,
        }
    }

    /// What decides a market's outcome, in a word.
    pub fn text(&self) -> (r: &'static str)
        ensures
            r@ == self.text_spec(),
    {
        match self {
            ResolutionKind::ChainlinkDataStream => "chainlink-data-stream",
            ResolutionKind::BinanceCandle => "binance-candle",
            ResolutionKind::Other => "OTHER/UNKNOWN",
        }
    }
}

/// What decides a market's outcome.
pub open spec fn resolution_text(market: MarketInfo) -> Seq<char> {
    market.resolution_kind.text_spec() + " ["@ + market.resolution_raw@ + "]"@
}

/// What decides a market's outcome.
pub fn fmt_resolution(market: &MarketInfo) -> (r: String)
    ensures
        r@ == resolution_text(*market),
{
    let mut s = market.resolution_kind.text().to_owned();
    s.append(" [");
    s.append(market.resolution_raw.as_str());
    s.append("]");
    s
}

/// A market's identifiers and terms, four lines.
pub open spec fn detail_text(market: MarketInfo) -> Seq<char> {
    "    cid   "@ + market.condition_id@ + "\n    up    "@ + market.up_token@ + "\n    down  "@
        + market.down_token@ + "\n    tick "@ + market.tick_size.text_spec() + "   min "@
        + market.min_order_size.text_spec() + " sh   fee "@ + market.fee_rate.text_spec() + (
    if market.taker_only {
        " taker-only"@
    } else {
        ""@
    }) + " (rebate "@ + market.rebate_rate.text_spec() + ", "@ + (if market.fees_enabled {
        "enabled"@
    } else {
        "DISABLED"@
    }) + ")   neg_risk "@ + bool_text(market.neg_risk) + "   resolution "@ + resolution_text(market)
        + "\n"@
}

/// A market's identifiers and terms, four lines.
pub fn market_detail(market: &MarketInfo) -> (r: String)
    ensures
        r@ == detail_text(*market),
{
    let mut s = "    cid   ".to_owned();
    s.append(market.condition_id.text.as_str());
    s.append("\n    up    ");
    s.append(market.up_token.text.as_str());
    s.append("\n    down  ");
    s.append(market.down_token.text.as_str());
    s.append("\n    tick ");
    s.append(market.tick_size.text().as_str());
    s.append("   min ");
    s.append(market.min_order_size.text().as_str());
    s.append(" sh   fee ");
    s.append(market.fee_rate.text().as_str());
    s.append(
        if market.taker_only {
            " taker-only"
        } else {
            ""
        },
    );
    s.append(" (rebate ");
    s.append(market.rebate_rate.text().as_str());
    s.append(", ");
    s.append(
        if market.fees_enabled {
            "enabled"
        } else {
            "DISABLED"
        },
    );
    s.append(")   neg_risk ");
    s.append(bool_word(market.neg_risk));
    s.append("   resolution ");
    s.append(fmt_resolution(market).as_str());
    s.append("\n");
    s
}

/// The open window of a series.
pub open spec fn current_text(current: Option<MarketInfo>, now_ms: int) -> Seq<char> {
    match current {
        Some(market) => "  current "@ + market.event_slug@ + "   "@ + calendar::fmt_ts_spec(
            market.window.open_ms as int,
        ) + " -> "@ + calendar::fmt_ts_spec(market.close_ms as int) + "   closes in "@
            + calendar::countdown_spec(screen::time_between(now_ms, market.close_ms as int)) + "\n"@
            + detail_text(market),
        None => "  current (none — between windows right now)\n"@,
    }
}

fn current_block(current: &Option<MarketInfo>, now_ms: i64) -> (r: String)
    ensures
        r@ == current_text(*current, now_ms as int),
{
    match current {
        Some(market) => {
            let mut s = "  current ".to_owned();
            s.append(market.event_slug.as_str());
            s.append("   ");
            s.append(calendar::fmt_ts(market.window.open_ms).as_str());
            s.append(" -> ");
            s.append(calendar::fmt_ts(market.close_ms).as_str());
            s.append("   closes in ");
            s.append(
                calendar::fmt_countdown(screen::ms_between(now_ms, market.close_ms)).as_str(),
            );
            s.append("\n");
            s.append(market_detail(market).as_str());
            s
        },
        None => "  current (none — between windows right now)\n".to_owned(),
    }
}

/// The line of the window that comes `i` after the next.
pub open spec fn upcoming_line(i: nat, market: MarketInfo, now_ms: int) -> Seq<char> {
    let place = if i == 0 {
        Seq::<char>::empty()
    } else {
        "+"@ + text::digits(i)
    };
    "  next"@ + text::padded_right(place, 4) + market.event_slug@ + "   opens "@
        + calendar::fmt_ts_spec(market.window.open_ms as int) + " (in "@
        + calendar::countdown_spec(screen::time_between(now_ms, market.window.open_ms as int))
        + ")\n"@
}

fn upcoming_row(i: usize, market: &MarketInfo, now_ms: i64) -> (r: String)
    ensures
        r@ == upcoming_line(i as nat, *market, now_ms as int),
{
    let place = if i == 0 {
        String::new()
    } else {
        text::join2("+", text::u64_text(i as u64).as_str())
    };
    let mut s = "  next".to_owned();
    s.append(text::pad_right(place.as_str(), 4).as_str());
    s.append(market.event_slug.as_str());
    s.append("   opens ");
    s.append(calendar::fmt_ts(market.window.open_ms).as_str());
    s.append(" (in ");
    s.append(calendar::fmt_countdown(screen::ms_between(now_ms, market.window.open_ms)).as_str());
    s.append(")\n");
    s
}

/// The lines of the windows to come.
pub open spec fn upcoming_text(markets: Seq<MarketInfo>, now_ms: int) -> Seq<char>
    decreases markets.len(),
{
    if markets.len() == 0 {
        Seq::empty()
    } else {
        upcoming_text(markets.drop_last(), now_ms) + upcoming_line(
            (markets.len() - 1) as nat,
            markets.last(),
            now_ms,
        )
    }
}

/// The block of a series.
pub open spec fn series_text(w: SeriesWindows, now_ms: int) -> Seq<char> {
    text::padded_right(w.series.key_spec(), 8) + " ("@ + text::digits(w.upcoming@.len())
        + " upcoming)\n"@ + current_text(w.current, now_ms) + upcoming_text(w.upcoming@, now_ms)
}

/// The block of a series.
pub fn series_block(w: &SeriesWindows, now_ms: i64) -> (r: String)
    ensures
        r@ == series_text(*w, now_ms as int),
{
    let mut rows = String::new();
    let mut i: usize = 0;
    assert(w.upcoming@.subrange(0, 0) =~= Seq::empty());
    while i < w.upcoming.len()
        invariant
            i <= w.upcoming@.len(),
            rows@ == upcoming_text(w.upcoming@.subrange(0, i as int), now_ms as int),
        decreases w.upcoming.len() - i,
    {
        proof {
            let part = w.upcoming@.subrange(0, i + 1);
            assert(part.drop_last() =~= w.upcoming@.subrange(0, i as int));
            assert(part.last() == w.upcoming@[i as int]);
        }
        rows.append(upcoming_row(i, &w.upcoming[i], now_ms).as_str());
        i = i + 1;
    }
    assert(w.upcoming@.subrange(0, i as int) =~= w.upcoming@);
    let mut s = text::pad_right(w.series.key(), 8);
    s.append(" (");
    s.append(text::u64_text(w.upcoming.len() as u64).as_str());
    s.append(" upcoming)\n");
    s.append(current_block(&w.current, now_ms).as_str());
    s.append(rows.as_str());
    s
}

/// What became of a series, after an empty line.
pub open spec fn discovered_text(d: Discovered, now_ms: int) -> Seq<char> {
    match d.windows {
        Ok(w) => "\n"@ + series_text(w, now_ms),
        Err(e) => "\n"@ + text::padded_right(d.series.key_spec(), 8) + " ERROR: "@ + e@ + "\n"@,
    }
}

fn discovered_block(d: &Discovered, now_ms: i64) -> (r: String)
    ensures
        r@ == discovered_text(*d, now_ms as int),
{
    let mut s = "\n".to_owned();
    match &d.windows {
        Ok(w) => {
            s.append(series_block(w, now_ms).as_str());
        },
        Err(e) => {
            s.append(text::pad_right(d.series.key(), 8).as_str());
            s.append(" ERROR: ");
            s.append(e.as_str());
            s.append("\n");
        },
    }
    s
}

/// What became of some series, in order.
pub open spec fn blocks_text(all: Seq<Discovered>, now_ms: int) -> Seq<char>
    decreases all.len(),
{
    if all.len() == 0 {
        Seq::empty()
    } else {
        blocks_text(all.drop_last(), now_ms) + discovered_text(all.last(), now_ms)
    }
}

/// How many series failed.
pub open spec fn failures(all: Seq<Discovered>) -> nat
    decreases all.len(),
{
    if all.len() == 0 {
        0
    } else if all.last().windows is Err {
        failures(all.drop_last()) + 1
    } else {
        failures(all.drop_last())
    }
}

/// The last line of a snapshot.
pub open spec fn verdict_text(failed: nat) -> Seq<char> {
    if failed == 0 {
        "all 6 series discovered OK\n"@
    } else {
        text::digits(failed) + " of 6 series FAILED — see ERROR lines above\n"@
    }
}

/// A snapshot of every series, with the series that failed told apart.
pub fn snapshot_text(all: &Vec<Discovered>, now_ms: i64) -> (r: String)
    ensures
        r@ == "discovery snapshot at "@ + calendar::fmt_ts_spec(now_ms as int) + " (now = "@
            + text::signed_digits(now_ms as int) + " ms)\n"@ + blocks_text(all@, now_ms as int)
            + "\n"@ + verdict_text(failures(all@)),
{
    let mut blocks = String::new();
    let mut failed: usize = 0;
    let mut i: usize = 0;
    assert(all@.subrange(0, 0) =~= Seq::empty());
    while i < all.len()
        invariant
            i <= all@.len(),
            blocks@ == blocks_text(all@.subrange(0, i as int), now_ms as int),
            failed == failures(all@.subrange(0, i as int)),
            failed <= i,
        decreases all.len() - i,
    {
        proof {
            let part = all@.subrange(0, i + 1);
            assert(part.drop_last() =~= all@.subrange(0, i as int));
            assert(part.last() == all@[i as int]);
        }
        blocks.append(discovered_block(&all[i], now_ms).as_str());
        if all[i].windows.is_err() {
            failed = failed + 1;
        }
        i = i + 1;
    }
    assert(all@.subrange(0, i as int) =~= all@);
    let verdict = if failed == 0 {
        "all 6 series discovered OK\n".to_owned()
    } else {
        text::join2(
            text::u64_text(failed as u64).as_str(),
            " of 6 series FAILED — see ERROR lines above\n",
        )
    };
    let mut s = "discovery snapshot at ".to_owned();
    s.append(calendar::fmt_ts(now_ms).as_str());
    s.append(" (now = ");
    s.append(text::i64_text(now_ms).as_str());
    s.append(" ms)\n");
    s.append(blocks.as_str());
    s.append("\n");
    s.append(verdict.as_str());
    s
}

/// The series that failed are those whose discovery did, each counted once; only where there is
/// none is all said to be well.
pub proof fn law_failures_are_counted(all: Seq<Discovered>)
    ensures
        failures(all) == all.filter(|d: Discovered| d.windows is Err).len(),
        failures(all) == 0 <==> (forall|i: int|
            0 <= i < all.len() ==> (#[trigger] all[i]).windows is Ok),
    decreases all.len(),
{
    reveal(Seq::filter);
    if all.len() > 0 {
        let rest = all.drop_last();
        law_failures_are_counted(rest);
        assert(forall|j: int| 0 <= j < rest.len() ==> #[trigger] rest[j] == all[j]);
        assert(all.last() == all[all.len() - 1]);
        if failures(all) == 0 {
            assert forall|i: int| 0 <= i < all.len() implies (#[trigger] all[i]).windows is Ok by {
                if i < rest.len() {
                    assert(rest[i].windows is Ok);
                }
            }
        }
        if forall|i: int| 0 <= i < all.len() ==> (#[trigger] all[i]).windows is Ok {
            assert forall|i: int| 0 <= i < rest.len() implies (#[trigger] rest[i]).windows is Ok by {
                assert(all[i].windows is Ok);
            }
        }
    }
}

/// Every series has its block, behind those of the series before it.
pub proof fn law_each_series_has_its_block(all: Seq<Discovered>, d: Discovered, now_ms: int)
    ensures
        blocks_text(all.push(d), now_ms) == blocks_text(all, now_ms) + discovered_text(d, now_ms),
        blocks_text(Seq::empty(), now_ms).len() == 0,
{
    assert(all.push(d).drop_last() == all);
}

/// The windows to come are listed in order, the first as the next one and the others by how many
/// come before them.
pub proof fn law_upcoming_are_listed_in_order(markets: Seq<MarketInfo>, now_ms: int)
    ensures
        markets.len() == 0 ==> upcoming_text(markets, now_ms).len() == 0,
        markets.len() > 0 ==> upcoming_text(markets, now_ms) == upcoming_text(
            markets.take(markets.len() - 1),
            now_ms,
        ) + upcoming_line((markets.len() - 1) as nat, markets[markets.len() - 1], now_ms),
{
    if markets.len() > 0 {
        assert(markets.drop_last() == markets.take(markets.len() - 1));
    }
}

} // verus!
