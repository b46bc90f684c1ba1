//! The market vocabulary: series, windows, orders, fills, settlements and bus events.

use vstd::prelude::*;
use vstd::string::*;

use crate::decimal::{abs_int, is_decimal, Amount, Figure, SAFE_UNITS, UNIT};
use crate::table::TableKey;
use crate::text;

verus! {

/// An underlying asset.
#[derive(Clone, Copy, PartialEq, Eq, Structural, Debug)]
pub enum Asset {
    /// Bitcoin.
    Btc,
    /// Ether.
    Eth,
}

impl Asset {
    /// The asset's ticker.
    pub open spec fn ticker_spec(self) -> Seq<char> {
        match self {
            Asset::Btc => "BTC"@,
            Asset::Eth => "ETH"@,
        }
    }

    /// The asset's ticker.
    pub fn ticker(&self) -> (r: &'static str)
        ensures
            r@ == self.ticker_spec(),
    {
        match self {
            Asset::Btc => "BTC",
            Asset::Eth => "ETH",
        }
    }
}

/// The length of a window.
#[derive(Clone, Copy, PartialEq, Eq, Structural, Debug)]
pub enum WindowDuration {
    /// Five minutes.
    M5,
    /// Fifteen minutes.
    M15,
    /// One hour.
    H1,
}

/// A recurring up/down market: an asset and a window length.
#[derive(Clone, Copy, PartialEq, Eq, Structural, Debug)]
pub struct Series {
    /// The underlying.
    pub asset: Asset,
    /// The window length.
    pub duration: WindowDuration,
}

impl Series {
    /// The six series, ordered by asset and then by length.
    pub open spec fn all_spec() -> Seq<Series> {
        seq![
            Series { asset: Asset::Btc, duration: WindowDuration::M5 },
            Series { asset: Asset::Btc, duration: WindowDuration::M15 },
            Series { asset: Asset::Btc, duration: WindowDuration::H1 },
            Series { asset: Asset::Eth, duration: WindowDuration::M5 },
            Series { asset: Asset::Eth, duration: WindowDuration::M15 },
            Series { asset: Asset::Eth, duration: WindowDuration::H1 },
        ]
    }

    /// The six series, ordered by asset and then by length.
    pub fn all() -> (r: Vec<Series>)
        ensures
            r@ == Series::all_spec(),
    {
        let r = vec![
            Series { asset: Asset::Btc, duration: WindowDuration::M5 },
            Series { asset: Asset::Btc, duration: WindowDuration::M15 },
            Series { asset: Asset::Btc, duration: WindowDuration::H1 },
            Series { asset: Asset::Eth, duration: WindowDuration::M5 },
            Series { asset: Asset::Eth, duration: WindowDuration::M15 },
            Series { asset: Asset::Eth, duration: WindowDuration::H1 },
        ];
        assert(r@ =~= Series::all_spec());
        r
    }

    /// The place of a series among the six.
    pub open spec fn rank_spec(self) -> int {
        let base: int = match self.asset {
            Asset::Btc => 0,
            Asset::Eth => 3,
        };
        base + match self.duration {
            WindowDuration::M5 => 0int,
            WindowDuration::M15 => 1,
            WindowDuration::H1 => 2,
        }
    }

    /// The place of a series among the six.
    pub fn rank(&self) -> (r: u8)
        ensures
            r == self.rank_spec(),
    {
        let base: u8 = match self.asset {
            Asset::Btc => 0,
            Asset::Eth => 3,
        };
        let step: u8 = match self.duration {
            WindowDuration::M5 => 0,
            WindowDuration::M15 => 1,
            WindowDuration::H1 => 2,
        };
        base + step
    }

    /// Two series of one rank are one.
    pub proof fn lemma_rank_unique(a: Series, b: Series)
        ensures
            a.rank_spec() == b.rank_spec() <==> a == b,
    {
    }

    /// The series stand by asset, Bitcoin before Ether, and those of an asset by length; each stands
    /// in its place among the six.
    pub proof fn law_series_stand_by_asset_and_length(a: Series, b: Series)
        ensures
            a.asset == Asset::Btc && b.asset == Asset::Eth ==> a.rank_spec() < b.rank_spec(),
            a.asset == b.asset && a.duration == WindowDuration::M5 && b.duration
                == WindowDuration::M15 ==> a.rank_spec() < b.rank_spec(),
            a.asset == b.asset && a.duration == WindowDuration::M15 && b.duration
                == WindowDuration::H1 ==> a.rank_spec() < b.rank_spec(),
            Series::all_spec().len() == 6,
            0 <= a.rank_spec() < 6 && Series::all_spec()[a.rank_spec()] == a,
    {
    }

    /// A series' key is its asset's ticker and its length.
    pub proof fn law_key_is_ticker_and_length(self)
        ensures
            self.key_spec() == self.asset.ticker_spec() + "-"@ + (match self.duration {
                WindowDuration::M5 => "5m"@,
                WindowDuration::M15 => "15m"@,
                WindowDuration::H1 => "1h"@,
            }),
    {
        reveal_strlit("BTC");
        reveal_strlit("ETH");
        reveal_strlit("-");
        reveal_strlit("5m");
        reveal_strlit("15m");
        reveal_strlit("1h");
        reveal_strlit("BTC-5m");
        reveal_strlit("BTC-15m");
        reveal_strlit("BTC-1h");
        reveal_strlit("ETH-5m");
        reveal_strlit("ETH-15m");
        reveal_strlit("ETH-1h");
        assert(self.key_spec() =~= self.asset.ticker_spec() + "-"@ + (match self.duration {
            WindowDuration::M5 => "5m"@,
            WindowDuration::M15 => "15m"@,
            WindowDuration::H1 => "1h"@,
        }));
    }

    /// The key, such as `BTC-5m`.
    pub open spec fn key_spec(self) -> Seq<char> {
        match (self.asset, self.duration) {
            (Asset::Btc, WindowDuration::M5) => "BTC-5m"@,
            (Asset::Btc, WindowDuration::M15) => "BTC-15m"@,
            (Asset::Btc, WindowDuration::H1) => "BTC-1h"@,
            (Asset::Eth, WindowDuration::M5) => "ETH-5m"@,
            (Asset::Eth, WindowDuration::M15) => "ETH-15m"@,
            (Asset::Eth, WindowDuration::H1) => "ETH-1h"@,
        }
    }

    /// The key, such as `BTC-5m`.
    pub fn key(&self) -> (r: &'static str)
        ensures
            r@ == self.key_spec(),
    {
        match (self.asset, self.duration) {
            (Asset::Btc, WindowDuration::M5) => "BTC-5m",
            (Asset::Btc, WindowDuration::M15) => "BTC-15m",
            (Asset::Btc, WindowDuration::H1) => "BTC-1h",
            (Asset::Eth, WindowDuration::M5) => "ETH-5m",
            (Asset::Eth, WindowDuration::M15) => "ETH-15m",
            (Asset::Eth, WindowDuration::H1) => "ETH-1h",
        }
    }

    /// The series with a key, letter for letter.
    pub open spec fn parsed(text: Seq<char>) -> Option<Series> {
        if exists|s: Series| #[trigger] s.key_spec() == text {
            Some(choose|s: Series| #[trigger] s.key_spec() == text)
        } else {
            None
        }
    }

    /// A series' key is read back as that series.
    pub proof fn law_key_is_read_back(self)
        ensures
            Series::parsed(self.key_spec()) == Some(self),
    {
        let s = choose|s: Series| #[trigger] s.key_spec() == self.key_spec();
        Series::lemma_key_unique(self, s);
    }

    /// The series with a key, letter for letter.
    pub fn parse(text: &str) -> (r: Option<Series>)
        ensures
            r == Series::parsed(text@),
    {
        let all = Series::all();
        let mut i: usize = 0;
        while i < all.len()
            invariant
                i <= all@.len(),
                all@ == Series::all_spec(),
                forall|j: int| 0 <= j < i ==> (#[trigger] all@[j]).key_spec() != text@,
            decreases all.len() - i,
        {
            if text::same(all[i].key(), text) {
                proof {
                    assert(all@[i as int].key_spec() == text@);
                    let s = choose|s: Series| #[trigger] s.key_spec() == text@;
                    Series::lemma_key_unique(all@[i as int], s);
                }
                return Some(all[i]);
            }
            i = i + 1;
        }
        proof {
            assert forall|s: Series| #[trigger] s.key_spec() != text@ by {
                assert(all@[s.rank_spec()] == s);
            }
        }
        None
    }

    /// No two series share a key.
    pub proof fn lemma_key_unique(a: Series, b: Series)
        ensures
            a.key_spec() == b.key_spec() <==> a == b,
    {
        reveal_strlit("BTC-5m");
        reveal_strlit("BTC-15m");
        reveal_strlit("BTC-1h");
        reveal_strlit("ETH-5m");
        reveal_strlit("ETH-15m");
        reveal_strlit("ETH-1h");
        if a != b && a.key_spec() == b.key_spec() {
            assert(a.key_spec()[0] == b.key_spec()[0]);
            assert(a.key_spec()[4] == b.key_spec()[4]);
            assert(a.key_spec().len() == b.key_spec().len());
            assert(a.key_spec()[5] == b.key_spec()[5]);
        }
    }
}

impl View for Series {
    type V = Series;

    open spec fn view(&self) -> Series {
        *self
    }
}

impl TableKey for Series {
    fn same_key(&self, other: &Self) -> (r: bool) {
        *self == *other
    }
}

impl View for Asset {
    type V = Asset;

    open spec fn view(&self) -> Asset {
        *self
    }
}

impl TableKey for Asset {
    fn same_key(&self, other: &Self) -> (r: bool) {
        *self == *other
    }
}

/// One window of a series, named by its opening time.
#[derive(Clone, Copy, PartialEq, Eq, Structural, Debug)]
pub struct WindowId {
    /// The series.
    pub series: Series,
    /// Opening time, Unix milliseconds.
    pub open_ms: i64,
}

impl WindowId {
    /// The window as text, such as `BTC-5m@1781481600000`.
    pub open spec fn text_spec(self) -> Seq<char> {
        self.series.key_spec() + seq!['@'] + text::signed_digits(self.open_ms as int)
    }

    /// The window as text.
    pub fn text(&self) -> (r: String)
        ensures
            r@ == self.text_spec(),
    {
        let mut r = self.series.key().to_owned();
        r.push('@');
        r.append(text::i64_text(self.open_ms).as_str());
        assert(r@ =~= self.text_spec());
        r
    }
}

impl View for WindowId {
    type V = WindowId;

    open spec fn view(&self) -> WindowId {
        *self
    }
}

impl TableKey for WindowId {
    fn same_key(&self, other: &Self) -> (r: bool) {
        *self == *other
    }
}

/// The side of the market that can win.
#[derive(Clone, Copy, PartialEq, Eq, Structural, Debug)]
pub enum Outcome {
    /// The price closed at or above the strike.
    Up,
    /// The price closed below it.
    Down,
}

impl Outcome {
    /// `Up` or `Down`.
    pub open spec fn text_spec(self) -> Seq<char> {
        match self {
            Outcome::Up => "Up"@,
            Outcome::Down => "Down"@,
        }
    }

    /// `Up` or `Down`.
    pub fn text(&self) -> (r: &'static str)
        ensures
            r@ == self.text_spec(),
    {
        match self {
            Outcome::Up => "Up",
            Outcome::Down => "Down",
        }
    }
}

/// Our side of an order.
#[derive(Clone, Copy, PartialEq, Eq, Structural, Debug)]
pub enum Side {
    /// Buying.
    Buy,
    /// Selling.
    Sell,
}

impl Side {
    /// `Buy` or `Sell`.
    pub open spec fn text_spec(self) -> Seq<char> {
        match self {
            Side::Buy => "Buy"@,
            Side::Sell => "Sell"@,
        }
    }

    /// `Buy` or `Sell`.
    pub fn text(&self) -> (r: &'static str)
        ensures
            r@ == self.text_spec(),
    {
        match self {
            Side::Buy => "Buy",
            Side::Sell => "Sell",
        }
    }
}

/// Whether a fill rested or crossed.
#[derive(Clone, Copy, PartialEq, Eq, Structural, Debug)]
pub enum Liquidity {
    /// The order rested.
    Maker,
    /// The order crossed the spread.
    Taker,
}

impl Liquidity {
    /// `Maker` or `Taker`.
    pub open spec fn text_spec(self) -> Seq<char> {
        match self {
            Liquidity::Maker => "Maker"@,
            Liquidity::Taker => "Taker"@,
        }
    }

    /// `Maker` or `Taker`.
    pub fn text(&self) -> (r: &'static str)
        ensures
            r@ == self.text_spec(),
    {
        match self {
            Liquidity::Maker => "Maker",
            Liquidity::Taker => "Taker",
        }
    }
}

/// The session's mode.
#[derive(Clone, Copy, PartialEq, Eq, Structural, Debug)]
pub enum Mode {
    /// Simulated money.
    Paper,
    /// Real money.
    Live,
}

/// Where an order stands.
#[derive(Clone, Copy, PartialEq, Eq, Structural, Debug)]
pub enum OrderState {
    /// Sent, not yet acknowledged.
    PendingNew,
    /// Resting.
    Open,
    /// A cancel has been requested.
    PendingCancel,
    /// Cancelled.
    Canceled,
    /// Filled.
    Filled,
    /// Refused by the venue.
    Rejected,
}

impl OrderState {
    /// Whether no further update can come.
    pub open spec fn is_terminal_spec(self) -> bool {
        self is Canceled || self is Filled || self is Rejected
    }

    /// Whether no further update can come.
    pub fn is_terminal(&self) -> (r: bool)
        ensures
            r == self.is_terminal_spec(),
    {
        match self {
            OrderState::Canceled | OrderState::Filled | OrderState::Rejected => true,
            _ => false,
        }
    }
}

/// A cancelled, a filled and a refused order are done; one that is sent, rests or waits for its
/// cancel is not.
pub proof fn law_done_orders(s: OrderState)
    ensures
        s == OrderState::Canceled || s == OrderState::Filled || s == OrderState::Rejected
            ==> s.is_terminal_spec(),
        s == OrderState::PendingNew || s == OrderState::Open || s == OrderState::PendingCancel
            ==> !s.is_terminal_spec(),
{
}

/// An order or token identifier.
#[derive(Clone, Debug)]
pub struct Id {
    /// The text of the identifier.
    pub text: String,
}

impl Id {
    /// An identifier with a text.
    pub fn new(text: &str) -> (r: Id)
        ensures
            r@ == text@,
    {
        Id { text: text.to_owned() }
    }

    /// The same identifier again.
    pub fn duplicate(&self) -> (r: Id)
        ensures
            r == *self,
    {
        Id { text: self.text.clone() }
    }
}

impl View for Id {
    type V = Seq<char>;

    open spec fn view(&self) -> Seq<char> {
        self.text@
    }
}

impl TableKey for Id {
    fn same_key(&self, other: &Self) -> (r: bool) {
        self.text == other.text
    }
}

/// A status update of one of our orders.
#[derive(Clone, Debug)]
pub struct OrderUpdate {
    /// The order.
    pub order_id: Id,
    /// Its window.
    pub window: WindowId,
    /// Our side.
    pub side: Side,
    /// Where it stands.
    pub state: OrderState,
    /// Its limit price.
    pub price: Amount,
    /// Shares filled so far.
    pub filled_size: Amount,
    /// The venue's reason, where it refused the order.
    pub reject_reason: Option<String>,
}

impl OrderUpdate {
    /// The same update again.
    pub fn duplicate(&self) -> (r: OrderUpdate)
        ensures
            r == *self,
    {
        OrderUpdate {
            order_id: self.order_id.duplicate(),
            window: self.window,
            side: self.side,
            state: self.state,
            price: self.price,
            filled_size: self.filled_size,
            reject_reason: match &self.reject_reason {
                Some(t) => Some(t.clone()),
                None => None,
            },
        }
    }
}

/// One of our fills.
#[derive(Clone, Copy, PartialEq, Eq, Structural, Debug)]
pub struct Fill {
    /// The window.
    pub window: WindowId,
    /// The outcome bought or sold.
    pub outcome: Outcome,
    /// Our side.
    pub side: Side,
    /// The price.
    pub price: Amount,
    /// The shares.
    pub size: Amount,
    /// Whether the order rested.
    pub liquidity: Liquidity,
    /// The fee paid.
    pub fee: Amount,
    /// The venue's time, Unix milliseconds.
    pub ts_venue_ms: i64,
}

/// What is held of one outcome.
#[derive(Clone, Copy, PartialEq, Eq, Structural, Debug)]
pub struct SideInventory {
    /// Shares held.
    pub shares: Amount,
    /// What they cost.
    pub cost: Amount,
}

impl SideInventory {
    /// The average cost of a share: the decimal quotient, none where nothing is held.
    pub open spec fn avg_price_spec(self) -> Option<Amount> {
        if self.shares.value() == 0 {
            None
        } else {
            Amount::quotient_of(self.cost, self.shares)
        }
    }

    /// Whether the average cost of a share, and that of a number of shares, are within a bound that
    /// keeps sums of them within the decimal type.
    pub open spec fn averages(self, number: int) -> bool {
        self.shares.value() != 0 ==> {
            let n = abs_int(self.shares.value());
            &&& abs_int(self.cost.value()) <= SAFE_UNITS * n
            &&& abs_int(number * self.cost.value()) <= SAFE_UNITS * UNIT * n
        }
    }

    /// The average cost of a share, none where nothing is held.
    pub fn avg_price(&self) -> (r: Option<Amount>)
        ensures
            r == self.avg_price_spec(),
            self.shares.value() != 0 && abs_int(self.cost.value()) <= SAFE_UNITS * abs_int(
                self.shares.value(),
            ) ==> r is Some,
            r matches Some(q) ==> abs_int(
                q.value() * self.shares.value() - self.cost.value() * UNIT,
            ) < UNIT * abs_int(self.shares.value()),
            r matches Some(q) ==> forall|v: int| #[trigger]
                is_decimal(v) && v * self.shares.value() == self.cost.value() * UNIT ==> q.value()
                    == v,
            r matches Some(q) ==> self.cost.value() == 0 ==> q.value() == 0,
    {
        proof {
            Amount::lemma_zero_is_decimal();
            assert(0 * self.shares.value() == 0) by (nonlinear_arith);
        }
        if self.shares.is_zero() {
            None
        } else {
            self.cost.divided_by(&self.shares)
        }
    }
}

/// The engine's record of a settled window.
#[derive(Clone, Copy, PartialEq, Eq, Structural, Debug)]
pub struct SettlementSummary {
    /// The window.
    pub window: WindowId,
    /// The winner.
    pub outcome: Outcome,
    /// Up shares held at the close.
    pub up: SideInventory,
    /// Down shares held at the close.
    pub down: SideInventory,
    /// Matched pairs held at the close.
    pub matched_pairs: Amount,
    /// Up shares less Down shares.
    pub excess: Amount,
    /// Pairs merged back to collateral during the window.
    pub merged_pairs: Amount,
    /// Combined average cost of a held pair, where both sides are held.
    pub pair_cost: Option<Amount>,
    /// Fees paid.
    pub fees_paid: Amount,
    /// The ledger's profit or loss.
    pub realized_pnl: Amount,
    /// The close, Unix milliseconds.
    pub ts_ms: i64,
}

impl SettlementSummary {
    /// Whether the holdings are ones that a ledger can have: no negative shares, and an excess
    /// that is part of the side it is on.
    pub open spec fn consistent(self) -> bool {
        &&& self.up.shares.value() >= 0
        &&& self.down.shares.value() >= 0
        &&& self.excess.value() > 0 ==> self.excess.value() <= self.up.shares.value()
        &&& self.excess.value() < 0 ==> -self.excess.value() <= self.down.shares.value()
    }

    /// Whether every amount is within a bound that keeps sums of them within the decimal type,
    /// and the average cost of an unmatched share, and that of all of them, too.
    pub open spec fn bounded(self) -> bool {
        &&& self.up.shares.within(SAFE_UNITS as int)
        &&& self.up.cost.within(SAFE_UNITS as int)
        &&& self.down.shares.within(SAFE_UNITS as int)
        &&& self.down.cost.within(SAFE_UNITS as int)
        &&& self.fees_paid.within(SAFE_UNITS as int)
        &&& self.realized_pnl.within(SAFE_UNITS as int)
        &&& self.excess.within(SAFE_UNITS as int)
        &&& self.excess.value() > 0 ==> self.up.averages(self.excess.value())
        &&& self.excess.value() < 0 ==> self.down.averages(self.excess.value())
    }

    /// The combined average cost of a held pair.
    pub open spec fn pair_cost_spec(up: SideInventory, down: SideInventory) -> Option<Amount> {
        match (up.avg_price_spec(), down.avg_price_spec()) {
            (Some(a), Some(b)) => Some(Amount::sum_of(a, b)),
            _ => None,
        }
    }

    /// The record of a window that closes with holdings: the matched pairs are the smaller side,
    /// and the excess is Up less Down.
    pub fn close(
        window: WindowId,
        outcome: Outcome,
        up: SideInventory,
        down: SideInventory,
        merged_pairs: Amount,
        fees_paid: Amount,
        realized_pnl: Amount,
        ts_ms: i64,
    ) -> (r: SettlementSummary)
        requires
            up.shares.within(SAFE_UNITS as int),
            down.shares.within(SAFE_UNITS as int),
            up.cost.within(SAFE_UNITS as int),
            down.cost.within(SAFE_UNITS as int),
            up.shares.value() >= 0 && down.shares.value() >= 0,
            up.shares.value() > 0 ==> abs_int(up.cost.value()) <= SAFE_UNITS * up.shares.value(),
            down.shares.value() > 0 ==> abs_int(down.cost.value()) <= SAFE_UNITS
                * down.shares.value(),
        ensures
            r == (SettlementSummary {
                window,
                outcome,
                up,
                down,
                matched_pairs: if down.shares.value() < up.shares.value() {
                    down.shares
                } else {
                    up.shares
                },
                excess: Amount::difference_of(up.shares, down.shares),
                merged_pairs,
                pair_cost: SettlementSummary::pair_cost_spec(up, down),
                fees_paid,
                realized_pnl,
                ts_ms,
            }),
            Amount::exact_difference(up.shares, down.shares) ==> r.excess.value()
                == up.shares.value() - down.shares.value() && r.consistent(),
            Amount::exact_difference(up.shares, down.shares) && fees_paid.within(
                SAFE_UNITS as int,
            ) && realized_pnl.within(SAFE_UNITS as int) ==> r.bounded(),
    {
        let excess = up.shares.minus(&down.shares);
        let pair_cost = match (up.avg_price(), down.avg_price()) {
            (Some(a), Some(b)) => {
                proof {
                    lemma_average_bound(up.shares.value(), up.cost.value(), a.value());
                    lemma_average_bound(down.shares.value(), down.cost.value(), b.value());
                }
                Some(a.plus(&b))
            },
            _ => None,
        };
        proof {
            if Amount::exact_difference(up.shares, down.shares) {
                lemma_part_of_cost(excess.value(), up.shares.value(), up.cost.value());
                lemma_part_of_cost(excess.value(), down.shares.value(), down.cost.value());
            }
        }
        SettlementSummary {
            window,
            outcome,
            up,
            down,
            matched_pairs: up.shares.min(&down.shares),
            excess,
            merged_pairs,
            pair_cost,
            fees_paid,
            realized_pnl,
            ts_ms,
        }
    }
}

/// A part of some shares has a part of their cost.
proof fn lemma_part_of_cost(part: int, shares: int, cost: int)
    requires
        shares >= 0,
        abs_int(cost) <= SAFE_UNITS * UNIT,
    ensures
        abs_int(part) <= shares ==> abs_int(part * cost) <= SAFE_UNITS * UNIT * shares,
{
    if abs_int(part) <= shares {
        let top = SAFE_UNITS * UNIT;
        assert(-(top * shares) <= part * cost <= top * shares) by (nonlinear_arith)
            requires
                -shares <= part <= shares,
                -top <= cost <= top,
                shares >= 0,
        ;
    }
}

/// An average cost is as bounded as cost and shares make it.
proof fn lemma_average_bound(shares: int, cost: int, avg: int)
    requires
        shares > 0,
        abs_int(cost) <= SAFE_UNITS * shares,
        abs_int(avg * shares - cost * UNIT) < UNIT * shares,
    ensures
        abs_int(avg) <= SAFE_UNITS * UNIT + UNIT,
{
    assert(-(SAFE_UNITS * UNIT + UNIT) <= avg <= SAFE_UNITS * UNIT + UNIT) by (nonlinear_arith)
        requires
            shares > 0,
            -(SAFE_UNITS * shares) <= cost <= SAFE_UNITS * shares,
            avg * shares - cost * UNIT < UNIT * shares,
            cost * UNIT - avg * shares < UNIT * shares,
    ;
}

/// Where a window stands.
#[derive(Clone, Copy, PartialEq, Eq, Structural, Debug)]
pub enum WindowLifecycle {
    /// Announced.
    Discovered,
    /// Trading.
    Open,
    /// About to close.
    Closing,
    /// Closed.
    Closed,
    /// Resolved to an outcome.
    Resolved {
        /// The winner.
        outcome: Outcome,
    },
}

/// What decides a market's outcome.
#[derive(Clone, Copy, PartialEq, Eq, Structural, Debug)]
pub enum ResolutionKind {
    /// A Chainlink data stream.
    ChainlinkDataStream,
    /// A Binance candle.
    BinanceCandle,
    /// Anything else.
    Other,
}

/// A market as discovery describes it.
#[derive(Clone, Debug)]
pub struct MarketInfo {
    /// The window.
    pub window: WindowId,
    /// The event's slug.
    pub event_slug: String,
    /// The condition that the market resolves.
    pub condition_id: Id,
    /// The Up token.
    pub up_token: Id,
    /// The Down token.
    pub down_token: Id,
    /// The close, Unix milliseconds.
    pub close_ms: i64,
    /// The price step.
    pub tick_size: Amount,
    /// The taker fee rate.
    pub fee_rate: Figure,
    /// The share of the fee that makers get back.
    pub rebate_rate: Figure,
    /// Whether fees are charged.
    pub fees_enabled: bool,
    /// Whether only takers pay.
    pub taker_only: bool,
    /// The smallest order, shares.
    pub min_order_size: Amount,
    /// Whether the market is one of a set of which at most one pays.
    pub neg_risk: bool,
    /// What decides the outcome.
    pub resolution_kind: ResolutionKind,
    /// What decides the outcome, as the venue words it.
    pub resolution_raw: String,
}

impl MarketInfo {
    /// The same market again.
    pub fn duplicate(&self) -> (r: MarketInfo)
        ensures
            r == *self,
    {
        MarketInfo {
            window: self.window,
            event_slug: self.event_slug.clone(),
            condition_id: self.condition_id.duplicate(),
            up_token: self.up_token.duplicate(),
            down_token: self.down_token.duplicate(),
            close_ms: self.close_ms,
            tick_size: self.tick_size,
            fee_rate: self.fee_rate,
            rebate_rate: self.rebate_rate,
            fees_enabled: self.fees_enabled,
            taker_only: self.taker_only,
            min_order_size: self.min_order_size,
            neg_risk: self.neg_risk,
            resolution_kind: self.resolution_kind,
            resolution_raw: self.resolution_raw.clone(),
        }
    }

    /// The token of an outcome.
    pub open spec fn token_spec(self, outcome: Outcome) -> Id {
        match outcome {
            Outcome::Up => self.up_token,
            Outcome::Down => self.down_token,
        }
    }

    /// The token of an outcome.
    pub fn token(&self, outcome: Outcome) -> (r: &Id)
        ensures
            *r == self.token_spec(outcome),
    {
        match outcome {
            Outcome::Up => &self.up_token,
            Outcome::Down => &self.down_token,
        }
    }
}

/// A price level of a book.
#[derive(Clone, Copy, PartialEq, Eq, Structural, Debug)]
pub struct Level {
    /// The price.
    pub price: Amount,
    /// The shares.
    pub size: Amount,
}

/// The best bid and ask.
#[derive(Clone, Copy, PartialEq, Eq, Structural, Debug)]
pub struct TopOfBook {
    /// The best bid.
    pub bid: Option<Level>,
    /// The best ask.
    pub ask: Option<Level>,
}

impl View for MarketInfo {
    type V = MarketInfo;

    open spec fn view(&self) -> MarketInfo {
        *self
    }
}

impl View for WindowLifecycle {
    type V = WindowLifecycle;

    open spec fn view(&self) -> WindowLifecycle {
        *self
    }
}

impl View for TopOfBook {
    type V = TopOfBook;

    open spec fn view(&self) -> TopOfBook {
        *self
    }
}

/// A market's token of an outcome is the one that pays where that outcome wins.
pub proof fn law_token_is_of_its_outcome(m: MarketInfo)
    ensures
        m.token_spec(Outcome::Up) == m.up_token,
        m.token_spec(Outcome::Down) == m.down_token,
{
}

/// A pair costs what a share of either side cost on average, and nothing is said of it where one
/// side is not held.
pub proof fn law_pair_costs_both_averages(up: SideInventory, down: SideInventory)
    ensures
        up.shares.value() == 0 || down.shares.value() == 0 ==> SettlementSummary::pair_cost_spec(
            up,
            down,
        ) is None,
        SettlementSummary::pair_cost_spec(up, down) is Some <==> up.avg_price_spec() is Some
            && down.avg_price_spec() is Some,
        SettlementSummary::pair_cost_spec(up, down) matches Some(c) ==> c == Amount::sum_of(
            up.avg_price_spec()->0,
            down.avg_price_spec()->0,
        ),
        up.shares.value() != 0 ==> up.avg_price_spec() == Amount::quotient_of(up.cost, up.shares),
{
}

/// An outcome is known by its name.
pub proof fn law_outcome_is_known_by_its_name(outcome: Outcome)
    ensures
        outcome.text_spec() == "Up"@ <==> outcome is Up,
        outcome.text_spec() == "Down"@ <==> outcome is Down,
{
    reveal_strlit("Up");
    reveal_strlit("Down");
    assert("Up"@.len() != "Down"@.len());
}

/// A side is known by its name.
pub proof fn law_side_is_known_by_its_name(side: Side)
    ensures
        side.text_spec() == "Buy"@ <==> side is Buy,
        side.text_spec() == "Sell"@ <==> side is Sell,
{
    reveal_strlit("Buy");
    reveal_strlit("Sell");
    assert("Buy"@.len() != "Sell"@.len());
}

/// A liquidity is known by its name.
pub proof fn law_liquidity_is_known_by_its_name(liquidity: Liquidity)
    ensures
        liquidity.text_spec() == "Maker"@ <==> liquidity is Maker,
        liquidity.text_spec() == "Taker"@ <==> liquidity is Taker,
{
    reveal_strlit("Maker");
    reveal_strlit("Taker");
    assert("Maker"@[0] != "Taker"@[0]);
}

} // verus!
