//! The comparison of the price feeds, as text. Numbers with a fraction are as they are shown.

use vstd::prelude::*;
use vstd::string::*;

use crate::calendar;
use crate::feed::{shown_or_dash, text_or_dash};
use crate::labels;
use crate::screen;
use crate::text;

verus! {

/// A stream of an asset.
#[derive(Clone, Debug)]
pub struct StreamSummary {
    /// The stream.
    pub name: String,
    /// The ticks in the window.
    pub ticks: u64,
    /// The ticks a second.
    pub rate: String,
    /// The latest value, where there is one.
    pub latest: Option<String>,
    /// Its age, where there is one.
    pub age: Option<String>,
}

/// How far apart two streams are.
#[derive(Clone, Debug)]
pub struct BasisSummary {
    /// The first stream.
    pub a: String,
    /// The second stream.
    pub b: String,
    /// The mean difference, basis points, signed.
    pub mean: String,
    /// The median difference, basis points, signed.
    pub p50: String,
    /// How many differences were taken.
    pub samples: u64,
}

/// Which of two streams leads.
#[derive(Clone, Debug)]
pub struct LeadSummary {
    /// The first stream.
    pub a: String,
    /// The second stream.
    pub b: String,
    /// By how much the first leads, milliseconds.
    pub lag_ms: i64,
    /// How closely they go together at that lag.
    pub correlation: String,
    /// How many points were compared.
    pub samples: u64,
}

/// How long a value of one stream takes to show in another.
#[derive(Clone, Debug)]
pub struct MatchSummary {
    /// The first stream.
    pub a: String,
    /// The second stream.
    pub b: String,
    /// The median, milliseconds.
    pub p50_ms: i64,
    /// The 95th percentile, milliseconds.
    pub p95_ms: i64,
    /// How many values were found again.
    pub matches: u64,
    /// How many of a hundred were.
    pub percent: String,
}

/// The streams of an asset against one another.
#[derive(Clone, Debug)]
pub struct AssetSummary {
    /// The asset's ticker.
    pub ticker: String,
    /// Each stream.
    pub streams: Vec<StreamSummary>,
    /// How far apart they are.
    pub bases: Vec<BasisSummary>,
    /// Which leads.
    pub leads: Vec<LeadSummary>,
    /// How long values take.
    pub match_lags: Vec<MatchSummary>,
}

impl StreamSummary {
    /// The row of a stream.
    pub open spec fn line_spec(self) -> Seq<char> {
        "  "@ + text::padded_right(self.name@, 14) + " "@ + text::padded_left(
            text::digits(self.ticks as nat),
            7,
            ' ',
        ) + " "@ + text::padded_left(self.rate@, 8, ' ') + "/s "@ + text::padded_left(
            text_or_dash(self.latest),
            14,
            ' ',
        ) + " "@ + text::padded_left(text_or_dash(self.age), 8, ' ') + "\n"@
    }

    fn line(&self) -> (r: String)
        ensures
            r@ == self.line_spec(),
    {
        let mut s = "  ".to_owned();
        s.append(text::pad_right(self.name.as_str(), 14).as_str());
        s.append(" ");
        s.append(text::pad_left(text::u64_text(self.ticks).as_str(), 7, ' ').as_str());
        s.append(" ");
        s.append(text::pad_left(self.rate.as_str(), 8, ' ').as_str());
        s.append("/s ");
        s.append(text::pad_left(shown_or_dash(&self.latest).as_str(), 14, ' ').as_str());
        s.append(" ");
        s.append(text::pad_left(shown_or_dash(&self.age).as_str(), 8, ' ').as_str());
        s.append("\n");
        s
    }
}

impl BasisSummary {
    /// The row of a pair's difference.
    pub open spec fn line_spec(self) -> Seq<char> {
        "  basis  "@ + text::padded_right(self.a@, 12) + " vs "@ + text::padded_right(self.b@, 12)
            + " mean "@ + text::padded_left(self.mean@, 8, ' ') + " bps   p50 "@
            + text::padded_left(self.p50@, 8, ' ') + " bps   (n="@ + text::digits(
            self.samples as nat,
        ) + ")\n"@
    }

    fn line(&self) -> (r: String)
        ensures
            r@ == self.line_spec(),
    {
        let mut s = "  basis  ".to_owned();
        s.append(text::pad_right(self.a.as_str(), 12).as_str());
        s.append(" vs ");
        s.append(text::pad_right(self.b.as_str(), 12).as_str());
        s.append(" mean ");
        s.append(text::pad_left(self.mean.as_str(), 8, ' ').as_str());
        s.append(" bps   p50 ");
        s.append(text::pad_left(self.p50.as_str(), 8, ' ').as_str());
        s.append(" bps   (n=");
        s.append(text::u64_text(self.samples).as_str());
        s.append(")\n");
        s
    }
}

impl LeadSummary {
    /// The row of a pair's lead.
    pub open spec fn line_spec(self) -> Seq<char> {
        "  xcorr  "@ + text::padded_right(self.a@, 12) + " vs "@ + text::padded_right(self.b@, 12)
            + " "@ + labels::lead_phrase_spec(self.lag_ms as int) + "   (corr "@
            + self.correlation@ + ", n="@ + text::digits(self.samples as nat) + ")\n"@
    }

    fn line(&self) -> (r: String)
        ensures
            r@ == self.line_spec(),
    {
        let mut s = "  xcorr  ".to_owned();
        s.append(text::pad_right(self.a.as_str(), 12).as_str());
        s.append(" vs ");
        s.append(text::pad_right(self.b.as_str(), 12).as_str());
        s.append(" ");
        s.append(labels::lead_phrase(self.lag_ms).as_str());
        s.append("   (corr ");
        s.append(self.correlation.as_str());
        s.append(", n=");
        s.append(text::u64_text(self.samples).as_str());
        s.append(")\n");
        s
    }
}

impl MatchSummary {
    /// The row of how long values take.
    pub open spec fn line_spec(self) -> Seq<char> {
        "  match  "@ + text::padded_right(self.a@, 12) + " -> "@ + text::padded_right(self.b@, 12)
            + " p50 "@ + text::padded_left(text::signed_digits(self.p50_ms as int), 5, ' ')
            + " ms   p95 "@ + text::padded_left(text::signed_digits(self.p95_ms as int), 5, ' ')
            + " ms   ("@ + text::digits(self.matches as nat) + " matched, "@ + self.percent@
            + "%)\n"@
    }

    fn line(&self) -> (r: String)
        ensures
            r@ == self.line_spec(),
    {
        let mut s = "  match  ".to_owned();
        s.append(text::pad_right(self.a.as_str(), 12).as_str());
        s.append(" -> ");
        s.append(text::pad_right(self.b.as_str(), 12).as_str());
        s.append(" p50 ");
        s.append(text::pad_left(text::i64_text(self.p50_ms).as_str(), 5, ' ').as_str());
        s.append(" ms   p95 ");
        s.append(text::pad_left(text::i64_text(self.p95_ms).as_str(), 5, ' ').as_str());
        s.append(" ms   (");
        s.append(text::u64_text(self.matches).as_str());
        s.append(" matched, ");
        s.append(self.percent.as_str());
        s.append("%)\n");
        s
    }
}

/// The rows of some streams.
pub open spec fn stream_lines(all: Seq<StreamSummary>) -> Seq<char>
    decreases all.len(),
{
    if all.len() == 0 {
        Seq::empty()
    } else {
        stream_lines(all.drop_last()) + all.last().line_spec()
    }
}

/// The rows of some differences.
pub open spec fn basis_lines(all: Seq<BasisSummary>) -> Seq<char>
    decreases all.len(),
{
    if all.len() == 0 {
        Seq::empty()
    } else {
        basis_lines(all.drop_last()) + all.last().line_spec()
    }
}

/// The rows of some leads.
pub open spec fn lead_lines(all: Seq<LeadSummary>) -> Seq<char>
    decreases all.len(),
{
    if all.len() == 0 {
        Seq::empty()
    } else {
        lead_lines(all.drop_last()) + all.last().line_spec()
    }
}

/// The rows of how long values take.
pub open spec fn match_lines(all: Seq<MatchSummary>) -> Seq<char>
    decreases all.len(),
{
    if all.len() == 0 {
        Seq::empty()
    } else {
        match_lines(all.drop_last()) + all.last().line_spec()
    }
}

/// The head of an asset's table.
pub open spec fn table_head(ticker: Seq<char>) -> Seq<char> {
    "\n"@ + ticker + "\n  "@ + text::padded_right("stream"@, 14) + " "@ + text::padded_left(
        "ticks"@,
        7,
        ' ',
    ) + " "@ + text::padded_left("rate"@, 9, ' ') + " "@ + text::padded_left("latest"@, 14, ' ')
        + " "@ + text::padded_left("age"@, 8, ' ') + "\n"@
}

fn head_text(ticker: &str) -> (r: String)
    ensures
        r@ == table_head(ticker@),
{
    let mut s = "\n".to_owned();
    s.append(ticker);
    s.append("\n  ");
    s.append(text::pad_right("stream", 14).as_str());
    s.append(" ");
    s.append(text::pad_left("ticks", 7, ' ').as_str());
    s.append(" ");
    s.append(text::pad_left("rate", 9, ' ').as_str());
    s.append(" ");
    s.append(text::pad_left("latest", 14, ' ').as_str());
    s.append(" ");
    s.append(text::pad_left("age", 8, ' ').as_str());
    s.append("\n");
    s
}

fn stream_text(all: &Vec<StreamSummary>) -> (r: String)
    ensures
        r@ == stream_lines(all@),
{
    let mut rows = String::new();
    let mut i: usize = 0;
    assert(all@.subrange(0, 0) =~= Seq::empty());
    while i < all.len()
        invariant
            i <= all@.len(),
            rows@ == stream_lines(all@.subrange(0, i as int)),
        decreases all.len() - i,
    {
        proof {
            let part = all@.subrange(0, i + 1);
            assert(part.drop_last() =~= all@.subrange(0, i as int));
            assert(part.last() == all@[i as int]);
        }
        rows.append(all[i].line().as_str());
        i = i + 1;
    }
    assert(all@.subrange(0, i as int) =~= all@);
    rows
}

fn basis_text(all: &Vec<BasisSummary>) -> (r: String)
    ensures
        r@ == basis_lines(all@),
{
    let mut rows = String::new();
    let mut i: usize = 0;
    assert(all@.subrange(0, 0) =~= Seq::empty());
    while i < all.len()
        invariant
            i <= all@.len(),
            rows@ == basis_lines(all@.subrange(0, i as int)),
        decreases all.len() - i,
    {
        proof {
            let part = all@.subrange(0, i + 1);
            assert(part.drop_last() =~= all@.subrange(0, i as int));
            assert(part.last() == all@[i as int]);
        }
        rows.append(all[i].line().as_str());
        i = i + 1;
    }
    assert(all@.subrange(0, i as int) =~= all@);
    rows
}

fn lead_text(all: &Vec<LeadSummary>) -> (r: String)
    ensures
        r@ == lead_lines(all@),
{
    let mut rows = String::new();
    let mut i: usize = 0;
    assert(all@.subrange(0, 0) =~= Seq::empty());
    while i < all.len()
        invariant
            i <= all@.len(),
            rows@ == lead_lines(all@.subrange(0, i as int)),
        decreases all.len() - i,
    {
        proof {
            let part = all@.subrange(0, i + 1);
            assert(part.drop_last() =~= all@.subrange(0, i as int));
            assert(part.last() == all@[i as int]);
        }
        rows.append(all[i].line().as_str());
        i = i + 1;
    }
    assert(all@.subrange(0, i as int) =~= all@);
    rows
}

fn match_text(all: &Vec<MatchSummary>) -> (r: String)
    ensures
        r@ == match_lines(all@),
{
    let mut rows = String::new();
    let mut i: usize = 0;
    assert(all@.subrange(0, 0) =~= Seq::empty());
    while i < all.len()
        invariant
            i <= all@.len(),
            rows@ == match_lines(all@.subrange(0, i as int)),
        decreases all.len() - i,
    {
        proof {
            let part = all@.subrange(0, i + 1);
            assert(part.drop_last() =~= all@.subrange(0, i as int));
            assert(part.last() == all@[i as int]);
        }
        rows.append(all[i].line().as_str());
        i = i + 1;
    }
    assert(all@.subrange(0, i as int) =~= all@);
    rows
}

impl AssetSummary {
    /// The tables of an asset.
    pub open spec fn block_spec(self) -> Seq<char> {
        table_head(self.ticker@) + stream_lines(self.streams@) + basis_lines(self.bases@)
            + lead_lines(self.leads@) + match_lines(self.match_lags@)
    }

    fn block(&self) -> (r: String)
        ensures
            r@ == self.block_spec(),
    {
        let mut s = head_text(self.ticker.as_str());
        s.append(stream_text(&self.streams).as_str());
        s.append(basis_text(&self.bases).as_str());
        s.append(lead_text(&self.leads).as_str());
        s.append(match_text(&self.match_lags).as_str());
        s
    }
}

/// The tables of some assets.
pub open spec fn asset_blocks(all: Seq<AssetSummary>) -> Seq<char>
    decreases all.len(),
{
    if all.len() == 0 {
        Seq::empty()
    } else {
        asset_blocks(all.drop_last()) + all.last().block_spec()
    }
}

/// The comparison's first line.
pub open spec fn comparison_head(now_ms: int, window_min: nat) -> Seq<char> {
    "\n=== feed comparison at "@ + calendar::fmt_ts_spec(now_ms) + " (rolling "@ + text::digits(
        window_min,
    ) + " min window) ===\n"@
}

/// The comparison over a rolling window of so many minutes: a line that says so where no tick
/// has come yet, else the tables of each asset.
pub fn comparison_text(summaries: &Vec<AssetSummary>, now_ms: i64, window_min: u64) -> (r: String)
    ensures
        r@ == comparison_head(now_ms as int, window_min as nat) + (if summaries@.len() == 0 {
            "(no ticks buffered yet)\n"@
        } else {
            asset_blocks(summaries@)
        }),
{
    let mut head = "\n=== feed comparison at ".to_owned();
    head.append(calendar::fmt_ts(now_ms).as_str());
    head.append(" (rolling ");
    head.append(text::u64_text(window_min).as_str());
    head.append(" min window) ===\n");
    if summaries.len() == 0 {
        return text::join2(head.as_str(), "(no ticks buffered yet)\n");
    }
    let mut blocks = String::new();
    let mut i: usize = 0;
    assert(summaries@.subrange(0, 0) =~= Seq::empty());
    while i < summaries.len()
        invariant
            i <= summaries@.len(),
            blocks@ == asset_blocks(summaries@.subrange(0, i as int)),
        decreases summaries.len() - i,
    {
        proof {
            let part = summaries@.subrange(0, i + 1);
            assert(part.drop_last() =~= summaries@.subrange(0, i as int));
            assert(part.last() == summaries@[i as int]);
        }
        blocks.append(summaries[i].block().as_str());
        i = i + 1;
    }
    assert(summaries@.subrange(0, i as int) =~= summaries@);
    text::join2(head.as_str(), blocks.as_str())
}

/// What a comparison run came to.
pub fn comparison_summary(ticks: u64, ran_ms: i64) -> (r: String)
    ensures
        r@ == "\nrun summary: "@ + text::digits(ticks as nat) + " price ticks over "@
            + text::signed_digits(screen::whole_seconds(ran_ms as int)) + "s"@,
{
    text::join5(
        "\nrun summary: ",
        text::u64_text(ticks).as_str(),
        " price ticks over ",
        text::i64_text(screen::seconds_in(ran_ms)).as_str(),
        "s",
    )
}

} // verus!
