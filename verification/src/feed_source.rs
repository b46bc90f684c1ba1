//! Which price feed a feed run streams.

use vstd::prelude::*;
use vstd::string::*;

use crate::text;

verus! {

/// Which feed `bot feed` runs.
#[derive(Clone, Copy, PartialEq, Eq, Structural, Debug)]
pub enum FeedSource {
    /// Polymarket's real-time data stream: Binance and Chainlink topics.
    Rtds,
    /// The direct Binance WebSocket.
    Binance,
}

impl Default for FeedSource {
    fn default() -> (r: FeedSource)
        ensures
            r == FeedSource::Rtds,
    {
        FeedSource::Rtds
    }
}

impl FeedSource {
    /// `rtds` or `binance`.
    pub open spec fn text_spec(self) -> Seq<char> {
        match self {
            FeedSource::Rtds => "rtds"@,
            FeedSource::Binance => "binance"@,
        }
    }

    /// `rtds` or `binance`.
    pub fn text(&self) -> (r: &'static str)
        ensures
            r@ == self.text_spec(),
    {
        match self {
            FeedSource::Rtds => "rtds",
            FeedSource::Binance => "binance",
        }
    }

    /// The source of a name, letter for letter, or what is wrong with the name.
    pub open spec fn parsed(s: Seq<char>) -> Result<FeedSource, Seq<char>> {
        if s == "rtds"@ {
            Ok(FeedSource::Rtds)
        } else if s == "binance"@ {
            Ok(FeedSource::Binance)
        } else {
            Err(
                "unknown feed source "@ + text::debug_quoted(s)
                    + " (expected rtds or binance)"@,
            )
        }
    }

    /// The source of a name, letter for letter, or what is wrong with the name.
    pub fn parse(s: &str) -> (r: Result<FeedSource, String>)
        ensures
            match r {
                Ok(f) => FeedSource::parsed(s@) == Ok::<FeedSource, Seq<char>>(f),
                Err(e) => FeedSource::parsed(s@) == Err::<FeedSource, Seq<char>>(e@),
            },
    {
        if text::same(s, "rtds") {
            Ok(FeedSource::Rtds)
        } else if text::same(s, "binance") {
            Ok(FeedSource::Binance)
        } else {
            Err(
                text::join3(
                    "unknown feed source ",
                    text::quoted(s).as_str(),
                    " (expected rtds or binance)",
                ),
            )
        }
    }
}

/// A source's name is read back as that source.
pub proof fn law_source_name_is_read_back(f: FeedSource)
    ensures
        FeedSource::parsed(f.text_spec()) == Ok::<FeedSource, Seq<char>>(f),
{
    reveal_strlit("rtds");
    reveal_strlit("binance");
    assert("rtds"@.len() == 4);
    assert("binance"@.len() == 7);
}

} // verus!
