//! The orders that the paper sessions and the dry run place.

use vstd::prelude::*;

use crate::control::RuntimeControlState;
use crate::decimal::{Amount, Figure};
use crate::table::{lookup, put, unique_keys, Table};
use crate::types::{
    Asset, Id, MarketInfo, Outcome, Series, Side, TopOfBook, WindowDuration, WindowId,
    WindowLifecycle,
};

verus! {

/// Shares of a quote.
pub const QUOTE_SHARES: i64 = 10;

/// How much an order is for.
#[derive(Clone, Copy, PartialEq, Eq, Structural, Debug)]
pub enum OrderQty {
    /// A number of shares.
    Shares(Amount),
    /// An amount of money.
    Notional(Amount),
}

/// How long an order stands.
#[derive(Clone, Copy, PartialEq, Eq, Structural, Debug)]
pub enum TimeInForce {
    /// Until it is cancelled.
    Gtc {
        /// Whether it may only rest.
        post_only: bool,
    },
    /// Until a time.
    Gtd {
        /// The time, Unix milliseconds.
        expires_at_ms: i64,
        /// Whether it may only rest.
        post_only: bool,
    },
    /// What can be filled at once, and no more.
    Fak,
    /// All at once, or nothing.
    Fok,
}

/// An order to place.
#[derive(Clone, Debug)]
pub struct NewOrder {
    /// Our name for it.
    pub client_id: &'static str,
    /// The window.
    pub window: WindowId,
    /// The token.
    pub token_id: Id,
    /// The token's outcome.
    pub outcome: Outcome,
    /// The side.
    pub side: Side,
    /// The limit price.
    pub price: Amount,
    /// How much it is for.
    pub qty: OrderQty,
    /// How long it stands.
    pub tif: TimeInForce,
}

/// An order, its texts as sequences.
pub struct OrderView {
    pub client_id: Seq<char>,
    pub window: WindowId,
    pub token_id: Seq<char>,
    pub outcome: Outcome,
    pub side: Side,
    pub price: Amount,
    pub qty: OrderQty,
    pub tif: TimeInForce,
}

impl View for NewOrder {
    type V = OrderView;

    open spec fn view(&self) -> OrderView {
        OrderView {
            client_id: self.client_id@,
            window: self.window,
            token_id: self.token_id@,
            outcome: self.outcome,
            side: self.side,
            price: self.price,
            qty: self.qty,
            tif: self.tif,
        }
    }
}

/// Orders, their texts as sequences.
pub open spec fn order_views(orders: Seq<NewOrder>) -> Seq<OrderView> {
    orders.map_values(|o: NewOrder| o@)
}

/// A resting quote of ten shares in a market.
pub open spec fn quote(
    market: MarketInfo,
    client_id: Seq<char>,
    outcome: Outcome,
    side: Side,
    price: Amount,
) -> OrderView {
    OrderView {
        client_id,
        window: market.window,
        token_id: market.token_spec(outcome)@,
        outcome,
        side,
        price,
        qty: OrderQty::Shares(Amount::of_parts((QUOTE_SHARES as int, 0))),
        tif: TimeInForce::Gtc { post_only: true },
    }
}

/// A resting quote of ten shares in a market.
fn quote_at(
    market: &MarketInfo,
    client_id: &'static str,
    outcome: Outcome,
    side: Side,
    price: Amount,
) -> (r: NewOrder)
    ensures
        r@ == quote(*market, client_id@, outcome, side, price),
{
    NewOrder {
        client_id,
        window: market.window,
        token_id: market.token(outcome).duplicate(),
        outcome,
        side,
        price,
        qty: OrderQty::Shares(Amount::from_i64(QUOTE_SHARES)),
        tif: TimeInForce::Gtc { post_only: true },
    }
}

/// The quotes on the Up token at its touch: none unless it has both a bid and an ask.
pub open spec fn up_quotes(
    market: MarketInfo,
    top: Option<TopOfBook>,
    bid_id: Seq<char>,
    ask_id: Seq<char>,
) -> Seq<OrderView> {
    match top {
        Some(TopOfBook { bid: Some(bid), ask: Some(ask) }) => seq![
            quote(market, bid_id, Outcome::Up, Side::Buy, bid.price),
            quote(market, ask_id, Outcome::Up, Side::Sell, ask.price),
        ],
        _ => Seq::empty(),
    }
}

/// The quote on the Down token at its bid: none unless it has one.
pub open spec fn down_quotes(
    market: MarketInfo,
    top: Option<TopOfBook>,
    bid_id: Seq<char>,
) -> Seq<OrderView> {
    match top {
        Some(TopOfBook { bid: Some(bid), .. }) => seq![
            quote(market, bid_id, Outcome::Down, Side::Buy, bid.price),
        ],
        _ => Seq::empty(),
    }
}

/// Whether an order may only rest and joins its side of a book's top.
pub open spec fn joins(o: OrderView, top: TopOfBook) -> bool {
    &&& o.tif == TimeInForce::Gtc { post_only: true }
    &&& match o.side {
        Side::Buy => top.bid matches Some(bid) && o.price == bid.price,
        Side::Sell => top.ask matches Some(ask) && o.price == ask.price,
    }
}

/// Whether an order would trade at once against a book's top.
pub open spec fn crosses(o: OrderView, top: TopOfBook) -> bool {
    match o.side {
        Side::Buy => top.ask matches Some(ask) && o.price.value() >= ask.price.value(),
        Side::Sell => top.bid matches Some(bid) && o.price.value() <= bid.price.value(),
    }
}

/// Every quote joins the touch that it was made at, and crosses it only where the book's own
/// sides do.
pub proof fn law_quotes_join_and_never_cross(
    market: MarketInfo,
    top: TopOfBook,
    bid_id: Seq<char>,
    ask_id: Seq<char>,
    o: OrderView,
)
    requires
        up_quotes(market, Some(top), bid_id, ask_id).contains(o) || down_quotes(
            market,
            Some(top),
            bid_id,
        ).contains(o),
    ensures
        joins(o, top),
        crosses(o, top) ==> (top.bid matches Some(bid) && top.ask matches Some(ask)
            && bid.price.value() >= ask.price.value()),
{
}

/// Every quote is for ten shares of its own market's window, on the token of its outcome, and may
/// only rest. On the Up token there is a bid and an ask where the book has both sides, and nothing
/// otherwise; on the Down token there is a bid where the book has one.
pub proof fn law_quotes_are_ten_shares_of_the_market(
    market: MarketInfo,
    top: TopOfBook,
    bid_id: Seq<char>,
    ask_id: Seq<char>,
)
    ensures
        ({
            let up = up_quotes(market, Some(top), bid_id, ask_id);
            let down = down_quotes(market, Some(top), bid_id);
            let ten = OrderQty::Shares(Amount::of_parts((10, 0)));
            let resting = TimeInForce::Gtc { post_only: true };
            &&& up.len() == (if top.bid is Some && top.ask is Some {
                2nat
            } else {
                0
            })
            &&& down.len() == (if top.bid is Some {
                1nat
            } else {
                0
            })
            &&& forall|i: int|
                0 <= i < up.len() ==> (#[trigger] up[i]).window == market.window && up[i].token_id
                    == market.up_token@ && up[i].outcome == Outcome::Up && up[i].qty == ten
                    && up[i].tif == resting
            &&& up.len() == 2 ==> up[0].side == Side::Buy && up[0].client_id == bid_id
                && up[0].price == top.bid->0.price && up[1].side == Side::Sell && up[1].client_id
                == ask_id && up[1].price == top.ask->0.price
            &&& down.len() == 1 ==> down[0].window == market.window && down[0].token_id
                == market.down_token@ && down[0].outcome == Outcome::Down && down[0].side
                == Side::Buy && down[0].client_id == bid_id && down[0].qty == ten && down[0].tif
                == resting && down[0].price == top.bid->0.price
        }),
        up_quotes(market, None, bid_id, ask_id).len() == 0,
        down_quotes(market, None, bid_id).len() == 0,
{
}

/// A round bids and offers the Up token at its touch and bids the Down token at its bid, or, where
/// the Up book lacks a side, places nothing at all.
pub proof fn law_round_follows_the_up_book(
    market: MarketInfo,
    up_top: Option<TopOfBook>,
    down_top: Option<TopOfBook>,
)
    ensures
        ({
            let orders = round_orders(market, up_top, down_top);
            let both = up_top matches Some(t) && t.bid is Some && t.ask is Some;
            let down = down_top matches Some(t) && t.bid is Some;
            &&& orders.len() == (if !both {
                0nat
            } else if down {
                3
            } else {
                2
            })
            &&& both ==> orders[0].outcome == Outcome::Up && orders[0].side == Side::Buy
                && orders[0].price == up_top->0.bid->0.price && orders[0].client_id
                == "paper-sim-bid"@ && orders[1].outcome == Outcome::Up && orders[1].side
                == Side::Sell && orders[1].price == up_top->0.ask->0.price && orders[1].client_id
                == "paper-sim-ask"@
            &&& both && down ==> orders[2].outcome == Outcome::Down && orders[2].side == Side::Buy
                && orders[2].price == down_top->0.bid->0.price && orders[2].client_id
                == "paper-sim-down-bid"@ && orders[2].token_id == market.down_token@
        }),
{
}

/// Adds the quotes on the Up token. Returns whether there were any.
fn push_up(
    out: &mut Vec<NewOrder>,
    market: &MarketInfo,
    top: Option<TopOfBook>,
    bid_id: &'static str,
    ask_id: &'static str,
) -> (r: bool)
    ensures
        order_views(final(out)@) == order_views(old(out)@) + up_quotes(
            *market,
            top,
            bid_id@,
            ask_id@,
        ),
        r == (up_quotes(*market, top, bid_id@, ask_id@).len() > 0),
{
    let ghost before = order_views(out@);
    if let Some(t) = top {
        if let (Some(bid), Some(ask)) = (t.bid, t.ask) {
            out.push(quote_at(market, bid_id, Outcome::Up, Side::Buy, bid.price));
            out.push(quote_at(market, ask_id, Outcome::Up, Side::Sell, ask.price));
            assert(order_views(out@) =~= before + up_quotes(*market, top, bid_id@, ask_id@));
            return true;
        }
    }
    assert(order_views(out@) =~= before + up_quotes(*market, top, bid_id@, ask_id@));
    false
}

/// Adds the quote on the Down token.
fn push_down(
    out: &mut Vec<NewOrder>,
    market: &MarketInfo,
    top: Option<TopOfBook>,
    bid_id: &'static str,
)
    ensures
        order_views(final(out)@) == order_views(old(out)@) + down_quotes(*market, top, bid_id@),
{
    let ghost before = order_views(out@);
    if let Some(t) = top {
        if let Some(bid) = t.bid {
            out.push(quote_at(market, bid_id, Outcome::Down, Side::Buy, bid.price));
        }
    }
    assert(order_views(out@) =~= before + down_quotes(*market, top, bid_id@));
}

/// The orders of a round in one market: none unless the Up token has both a bid and an ask.
pub open spec fn round_orders(
    market: MarketInfo,
    up_top: Option<TopOfBook>,
    down_top: Option<TopOfBook>,
) -> Seq<OrderView> {
    let up = up_quotes(market, up_top, "paper-sim-bid"@, "paper-sim-ask"@);
    if up.len() == 0 {
        Seq::empty()
    } else {
        up + down_quotes(market, down_top, "paper-sim-down-bid"@)
    }
}

/// The orders that a paper round places in its market, at the touch, so that they join and never
/// cross. `None` where the round leaves the resting orders alone: without a market, or without
/// both sides of the Up book. Otherwise they replace what rests.
pub fn quote_round(
    current: &Option<MarketInfo>,
    up_top: Option<TopOfBook>,
    down_top: Option<TopOfBook>,
) -> (r: Option<Vec<NewOrder>>)
    ensures
        match r {
            Some(orders) => *current matches Some(market) && round_orders(
                market,
                up_top,
                down_top,
            ).len() > 0 && order_views(orders@) == round_orders(market, up_top, down_top),
            None => *current matches Some(market) ==> round_orders(
                market,
                up_top,
                down_top,
            ).len() == 0,
        },
{
    match current {
        None => None,
        Some(market) => {
            let mut out: Vec<NewOrder> = Vec::new();
            if !push_up(&mut out, market, up_top, "paper-sim-bid", "paper-sim-ask") {
                return None;
            }
            push_down(&mut out, market, down_top, "paper-sim-down-bid");
            assert(order_views(out@) =~= round_orders(*market, up_top, down_top));
            Some(out)
        },
    }
}

/// The net position in a token: the first that is listed, or zero.
pub open spec fn net_position(positions: Seq<(Id, Figure)>, token: Seq<char>) -> Amount
    decreases positions.len(),
{
    if positions.len() == 0 {
        Amount::zero_spec()
    } else if positions[0].0@ == token {
        positions[0].1.amount_spec()
    } else {
        net_position(positions.drop_first(), token)
    }
}

/// The net position in a token.
fn net(positions: &Vec<(Id, Figure)>, token: &Id) -> (r: Amount)
    ensures
        r == net_position(positions@, token@),
{
    let mut i: usize = 0;
    assert(positions@.subrange(0, positions@.len() as int) =~= positions@);
    while i < positions.len()
        invariant
            i <= positions@.len(),
            net_position(positions@, token@) == net_position(
                positions@.subrange(i as int, positions@.len() as int),
                token@,
            ),
        decreases positions.len() - i,
    {
        let ghost rest = positions@.subrange(i as int, positions@.len() as int);
        assert(rest[0] == positions@[i as int]);
        assert(rest.drop_first() =~= positions@.subrange(i + 1, positions@.len() as int));
        if crate::text::same(positions[i].0.text.as_str(), token.text.as_str()) {
            return positions[i].1.amount();
        }
        i = i + 1;
    }
    Amount::zero()
}

/// The pairs of a market that can be merged back to collateral: the smaller of the two
/// positions, where it is above zero.
pub open spec fn mergeable(positions: Seq<(Id, Figure)>, market: MarketInfo) -> Option<Amount> {
    let up = net_position(positions, market.up_token@);
    let down = net_position(positions, market.down_token@);
    let matched = if down.value() < up.value() {
        down
    } else {
        up
    };
    if matched.value() > 0 {
        Some(matched)
    } else {
        None
    }
}

/// The pairs of a market that can be merged back to collateral.
pub fn merge_pairs(positions: &Vec<(Id, Figure)>, market: &MarketInfo) -> (r: Option<Amount>)
    ensures
        r == mergeable(positions@, *market),
{
    let up = net(positions, &market.up_token);
    let down = net(positions, &market.down_token);
    let matched = up.min(&down);
    if matched.is_positive() {
        Some(matched)
    } else {
        None
    }
}

/// Whether a place is the first at which a token is listed.
pub open spec fn is_first_listed(positions: Seq<(Id, Figure)>, token: Seq<char>, i: int) -> bool {
    &&& 0 <= i < positions.len()
    &&& positions[i].0@ == token
    &&& forall|k: int| 0 <= k < i ==> (#[trigger] positions[k]).0@ != token
}

/// A token's net position is what stands at the first place at which it is listed, and nothing
/// where it is not listed.
pub proof fn law_position_is_the_first_listed(positions: Seq<(Id, Figure)>, token: Seq<char>)
    ensures
        forall|i: int| #[trigger]
            is_first_listed(positions, token, i) ==> net_position(positions, token)
                == positions[i].1.amount_spec(),
        (forall|k: int| 0 <= k < positions.len() ==> (#[trigger] positions[k]).0@ != token)
            ==> net_position(positions, token).value() == 0,
    decreases positions.len(),
{
    if positions.len() == 0 {
        Amount::lemma_zero_value();
    } else if positions[0].0@ == token {
        assert forall|i: int| #[trigger] is_first_listed(positions, token, i) implies i == 0 by {
            if i > 0 {
                assert(positions[0].0@ != token);
            }
        }
    } else {
        let rest = positions.drop_first();
        law_position_is_the_first_listed(rest, token);
        assert forall|i: int| #[trigger] is_first_listed(positions, token, i) implies net_position(
            positions,
            token,
        ) == positions[i].1.amount_spec() by {
            assert(rest[i - 1] == positions[i]);
            assert forall|k: int| 0 <= k < i - 1 implies (#[trigger] rest[k]).0@ != token by {
                assert(rest[k] == positions[k + 1]);
            }
            assert(is_first_listed(rest, token, i - 1));
        }
        assert forall|k: int|
            0 <= k < rest.len() && (forall|j: int|
                0 <= j < positions.len() ==> (#[trigger] positions[j]).0@ != token) implies (
        #[trigger] rest[k]).0@ != token by {
            assert(rest[k] == positions[k + 1]);
        }
    }
}

/// Merged pairs never exceed either holding and use up the smaller one: there is something to merge
/// exactly where both holdings are above zero, and then it is the one that is no larger than the
/// other. A holding is what stands at the first place at which its token is listed.
pub proof fn law_merge_uses_up_the_smaller_holding(
    positions: Seq<(Id, Figure)>,
    market: MarketInfo,
    i: int,
    j: int,
)
    requires
        is_first_listed(positions, market.up_token@, i),
        is_first_listed(positions, market.down_token@, j),
    ensures
        ({
            let up = positions[i].1.amount_spec();
            let down = positions[j].1.amount_spec();
            &&& mergeable(positions, market) is Some <==> up.value() > 0 && down.value() > 0
            &&& mergeable(positions, market) matches Some(m) ==> m.value() > 0 && m.value()
                <= up.value() && m.value() <= down.value() && (m == up || m == down)
        }),
{
    law_position_is_the_first_listed(positions, market.up_token@);
    law_position_is_the_first_listed(positions, market.down_token@);
}

/// Nothing is merged where one of a market's tokens is not held.
pub proof fn law_no_merge_without_both_tokens(positions: Seq<(Id, Figure)>, market: MarketInfo)
    requires
        (forall|k: int|
            0 <= k < positions.len() ==> (#[trigger] positions[k]).0@ != market.up_token@) || (
        forall|k: int|
            0 <= k < positions.len() ==> (#[trigger] positions[k]).0@ != market.down_token@),
    ensures
        mergeable(positions, market) is None,
{
    law_position_is_the_first_listed(positions, market.up_token@);
    law_position_is_the_first_listed(positions, market.down_token@);
}

/// Exchanging a market's two tokens changes nothing about how many pairs are merged.
pub proof fn law_merge_does_not_tell_the_sides_apart(
    positions: Seq<(Id, Figure)>,
    a: MarketInfo,
    b: MarketInfo,
)
    requires
        a.up_token@ == b.down_token@,
        a.down_token@ == b.up_token@,
    ensures
        mergeable(positions, a) is Some <==> mergeable(positions, b) is Some,
        mergeable(positions, a) is Some ==> mergeable(positions, a)->0.value() == mergeable(
            positions,
            b,
        )->0.value(),
{
}

/// Quotes every series' current window at the touch.
#[derive(Clone, Debug)]
pub struct Quoter {
    markets: Table<Series, MarketInfo>,
    tops: Table<Id, TopOfBook>,
}

/// The orders in one market.
pub open spec fn market_orders(market: MarketInfo, tops: Seq<(Seq<char>, TopOfBook)>) -> Seq<
    OrderView,
> {
    up_quotes(market, lookup(tops, market.up_token@), "dash-up-bid"@, "dash-up-ask"@)
        + down_quotes(market, lookup(tops, market.down_token@), "dash-down-bid"@)
}

/// The orders in the markets whose series are enabled.
pub open spec fn all_orders(
    markets: Seq<(Series, MarketInfo)>,
    tops: Seq<(Seq<char>, TopOfBook)>,
    enabled: spec_fn(Series) -> bool,
) -> Seq<OrderView>
    decreases markets.len(),
{
    if markets.len() == 0 {
        Seq::empty()
    } else {
        let before = all_orders(markets.drop_last(), tops, enabled);
        let market = markets.last().1;
        if enabled(market.window.series) {
            before + market_orders(market, tops)
        } else {
            before
        }
    }
}

impl Quoter {
    /// The current market of each series.
    pub closed spec fn markets(&self) -> Seq<(Series, MarketInfo)> {
        self.markets@
    }

    /// The latest top of each token's book.
    pub closed spec fn tops(&self) -> Seq<(Seq<char>, TopOfBook)> {
        self.tops@
    }

    /// Whether nothing is held twice.
    pub open spec fn wf(&self) -> bool {
        unique_keys(self.markets()) && unique_keys(self.tops())
    }

    /// A quoter that has seen nothing.
    pub fn new() -> (r: Quoter)
        ensures
            r.wf(),
            r.markets().len() == 0 && r.tops().len() == 0,
    {
        Quoter { markets: Table::new(), tops: Table::new() }
    }

    /// Takes a market event in: a window that opens becomes its series' current one.
    pub fn on_window(&mut self, market: &MarketInfo, lifecycle: WindowLifecycle)
        requires
            old(self).wf(),
        ensures
            final(self).wf(),
            final(self).tops() == old(self).tops(),
            final(self).markets() == (if lifecycle is Open {
                put(old(self).markets(), market.window.series, *market)
            } else {
                old(self).markets()
            }),
    {
        if let WindowLifecycle::Open = lifecycle {
            self.markets.insert(market.window.series, market.duplicate());
        }
    }

    /// Takes the top of a token's book in.
    pub fn on_top(&mut self, token: &Id, top: TopOfBook)
        requires
            old(self).wf(),
        ensures
            final(self).wf(),
            final(self).markets() == old(self).markets(),
            final(self).tops() == put(old(self).tops(), token@, top),
    {
        self.tops.insert(token.duplicate(), top);
    }

    /// The orders of a round, which replace what rests; `None` where no window has opened and
    /// nothing is done.
    pub fn requote(&self, control: &RuntimeControlState) -> (r: Option<Vec<NewOrder>>)
        requires
            self.wf(),
            control@.wf(),
        ensures
            match r {
                None => self.markets().len() == 0,
                Some(orders) => self.markets().len() > 0 && order_views(orders@) == all_orders(
                    self.markets(),
                    self.tops(),
                    |s: Series| control@.enables(s),
                ),
            },
    {
        if self.markets.is_empty() {
            return None;
        }
        let ghost enabled = |s: Series| control@.enables(s);
        let ghost all = self.markets();
        let mut out: Vec<NewOrder> = Vec::new();
        let mut i: usize = 0;
        assert(all.subrange(0, 0) =~= Seq::empty());
        assert(order_views(out@) =~= Seq::empty());
        while i < self.markets.len()
            invariant
                self.wf(),
                control@.wf(),
                i <= all.len(),
                all == self.markets(),
                all == self.markets@,
                enabled == (|s: Series| control@.enables(s)),
                order_views(out@) == all_orders(all.subrange(0, i as int), self.tops(), enabled),
            decreases all.len() - i,
        {
            let market = self.markets.value_at(i);
            proof {
                let part = all.subrange(0, i + 1);
                assert(part.drop_last() =~= all.subrange(0, i as int));
                assert(part.last() == all[i as int]);
            }
            if control.is_series_enabled(market.window.series) {
                let ghost before = order_views(out@);
                let up = match self.tops.get(&market.up_token) {
                    Some(t) => Some(*t),
                    None => None,
                };
                let down = match self.tops.get(&market.down_token) {
                    Some(t) => Some(*t),
                    None => None,
                };
                let _ = push_up(&mut out, market, up, "dash-up-bid", "dash-up-ask");
                push_down(&mut out, market, down, "dash-down-bid");
                assert(order_views(out@) =~= before + market_orders(*market, self.tops()));
            }
            i = i + 1;
        }
        assert(all.subrange(0, i as int) =~= all);
        Some(out)
    }

    /// The orders of a round, unless trading is halted: the quoter then stands down.
    pub fn on_quote_tick(&self, control: &RuntimeControlState) -> (r: Option<Vec<NewOrder>>)
        requires
            self.wf(),
            control@.wf(),
        ensures
            match r {
                None => control@.halted || self.markets().len() == 0,
                Some(orders) => !control@.halted && self.markets().len() > 0 && order_views(orders@)
                    == all_orders(self.markets(), self.tops(), |s: Series| control@.enables(s)),
            },
    {
        if control.is_halted() {
            return None;
        }
        self.requote(control)
    }
}

/// A disabled series is not quoted.
pub proof fn law_disabled_series_is_not_quoted(
    markets: Seq<(Series, MarketInfo)>,
    tops: Seq<(Seq<char>, TopOfBook)>,
    enabled: spec_fn(Series) -> bool,
)
    ensures
        forall|i: int|
            0 <= i < all_orders(markets, tops, enabled).len() ==> enabled(
                (#[trigger] all_orders(markets, tops, enabled)[i]).window.series,
            ),
    decreases markets.len(),
{
    if markets.len() > 0 {
        law_disabled_series_is_not_quoted(markets.drop_last(), tops, enabled);
    }
}

/// The orders of a round are those of the markets whose series are enabled, and no others; every
/// such market is quoted.
pub proof fn law_enabled_markets_are_quoted(
    markets: Seq<(Series, MarketInfo)>,
    tops: Seq<(Seq<char>, TopOfBook)>,
    enabled: spec_fn(Series) -> bool,
    o: OrderView,
)
    ensures
        all_orders(markets, tops, enabled).contains(o) <==> exists|i: int|
            0 <= i < markets.len() && enabled((#[trigger] markets[i]).1.window.series)
                && market_orders(markets[i].1, tops).contains(o),
    decreases markets.len(),
{
    let all = all_orders(markets, tops, enabled);
    if markets.len() > 0 {
        let rest = markets.drop_last();
        let last = markets.last().1;
        let before = all_orders(rest, tops, enabled);
        let own = market_orders(last, tops);
        law_enabled_markets_are_quoted(rest, tops, enabled, o);
        assert(markets[markets.len() - 1].1 == last);
        assert forall|i: int| 0 <= i < rest.len() implies (#[trigger] rest[i]) == markets[i] by {}
        if all.contains(o) {
            let k = choose|k: int| 0 <= k < all.len() && all[k] == o;
            if k < before.len() {
                assert(before[k] == o);
                let i = choose|i: int|
                    0 <= i < rest.len() && enabled((#[trigger] rest[i]).1.window.series)
                        && market_orders(rest[i].1, tops).contains(o);
                assert(markets[i] == rest[i]);
            } else {
                assert(own[k - before.len()] == o);
            }
        }
        if exists|i: int|
            0 <= i < markets.len() && enabled((#[trigger] markets[i]).1.window.series)
                && market_orders(markets[i].1, tops).contains(o) {
            let i = choose|i: int|
                0 <= i < markets.len() && enabled((#[trigger] markets[i]).1.window.series)
                    && market_orders(markets[i].1, tops).contains(o);
            if i < rest.len() {
                assert(rest[i] == markets[i]);
                let k = choose|k: int| 0 <= k < before.len() && before[k] == o;
                assert(all[k] == o);
            } else {
                let k = choose|k: int| 0 <= k < own.len() && own[k] == o;
                assert(all[before.len() + k] == o);
            }
        }
    }
}

/// A market is quoted by the latest tops of its own two tokens: the Up token's on the Up side, the
/// Down token's bid on the Down side.
pub proof fn law_market_is_quoted_by_its_own_books(
    market: MarketInfo,
    tops: Seq<(Seq<char>, TopOfBook)>,
    o: OrderView,
)
    requires
        market_orders(market, tops).contains(o),
    ensures
        o.window == market.window,
        o.outcome == Outcome::Up ==> o.token_id == market.up_token@ && lookup(
            tops,
            market.up_token@,
        ) is Some && joins(o, lookup(tops, market.up_token@)->0),
        o.outcome == Outcome::Down ==> o.side == Side::Buy && o.token_id == market.down_token@
            && lookup(tops, market.down_token@) is Some && joins(
            o,
            lookup(tops, market.down_token@)->0,
        ),
{
}

/// The order that a dry run builds on a made-up Bitcoin window.
pub open spec fn demo_order(side: Side, qty: OrderQty, tif: TimeInForce, price: Amount) -> OrderView {
    OrderView {
        client_id: "venue-check"@,
        window: WindowId {
            series: Series { asset: Asset::Btc, duration: WindowDuration::M5 },
            open_ms: 1_781_320_800_000,
        },
        token_id: "123456789"@,
        outcome: Outcome::Up,
        side,
        price,
        qty,
        tif,
    }
}

/// The order that a dry run builds.
fn demo(side: Side, qty: OrderQty, tif: TimeInForce, price: Amount) -> (r: NewOrder)
    ensures
        r@ == demo_order(side, qty, tif, price),
{
    NewOrder {
        client_id: "venue-check",
        window: WindowId {
            series: Series { asset: Asset::Btc, duration: WindowDuration::M5 },
            open_ms: 1_781_320_800_000,
        },
        token_id: Id::new("123456789"),
        outcome: Outcome::Up,
        side,
        price,
        qty,
        tif,
    }
}

/// One order of each class, with what it shows.
pub fn representative_orders(now_ms: i64) -> (r: Vec<(&'static str, NewOrder)>)
    ensures
        r@.len() == 4,
        r@[0].0@ == "GTC post-only BUY"@ && r@[0].1@ == demo_order(
            Side::Buy,
            OrderQty::Shares(Amount::of_parts((10, 0))),
            TimeInForce::Gtc { post_only: true },
            Amount::of_parts((40, 2)),
        ),
        r@[1].0@ == "GTD post-only SELL (expiry in 10s \u{2192} floored to \u{2265} now+60s)"@
            && r@[1].1@ == demo_order(
            Side::Sell,
            OrderQty::Shares(Amount::of_parts((7, 0))),
            TimeInForce::Gtd {
                expires_at_ms: if now_ms + 10_000 > i64::MAX {
                    i64::MAX
                } else {
                    (now_ms + 10_000) as i64
                },
                post_only: true,
            },
            Amount::of_parts((55, 2)),
        ),
        r@[2].0@ == "FAK marketable BUY (dollar notional)"@ && r@[2].1@ == demo_order(
            Side::Buy,
            OrderQty::Notional(Amount::of_parts((25, 0))),
            TimeInForce::Fak,
            Amount::of_parts((60, 2)),
        ),
        r@[3].0@ == "FOK marketable SELL (share count)"@ && r@[3].1@ == demo_order(
            Side::Sell,
            OrderQty::Shares(Amount::of_parts((10, 0))),
            TimeInForce::Fok,
            Amount::of_parts((45, 2)),
        ),
{
    let expires_at_ms: i64 = if now_ms > i64::MAX - 10_000 {
        i64::MAX
    } else {
        now_ms + 10_000
    };
    let mut out: Vec<(&'static str, NewOrder)> = Vec::new();
    out.push(
        (
            "GTC post-only BUY",
            demo(
                Side::Buy,
                OrderQty::Shares(Amount::from_i64(10)),
                TimeInForce::Gtc { post_only: true },
                Amount::new(40, 2),
            ),
        ),
    );
    out.push(
        (
            "GTD post-only SELL (expiry in 10s \u{2192} floored to \u{2265} now+60s)",
            demo(
                Side::Sell,
                OrderQty::Shares(Amount::from_i64(7)),
                TimeInForce::Gtd { expires_at_ms, post_only: true },
                Amount::new(55, 2),
            ),
        ),
    );
    out.push(
        (
            "FAK marketable BUY (dollar notional)",
            demo(
                Side::Buy,
                OrderQty::Notional(Amount::from_i64(25)),
                TimeInForce::Fak,
                Amount::new(60, 2),
            ),
        ),
    );
    out.push(
        (
            "FOK marketable SELL (share count)",
            demo(
                Side::Sell,
                OrderQty::Shares(Amount::from_i64(10)),
                TimeInForce::Fok,
                Amount::new(45, 2),
            ),
        ),
    );
    out
}

} // verus!
