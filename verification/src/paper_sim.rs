//! The paper session's view: the current window, our quotes, the wallet, and what happened
//! lately.

use vstd::prelude::*;
use vstd::string::*;

use crate::calendar;
use crate::decimal::{abs_int, max_value, Amount, Figure, UNIT};
use crate::quoting::{
    merge_pairs, mergeable, order_views, quote_round, round_orders, NewOrder,
};
use crate::screen;
use crate::screen::EventPane;
use crate::table::{cut, lookup, put, unique_keys, Table};
use crate::text;
use crate::types::{
    Fill, Id, Liquidity, MarketInfo, OrderState, OrderUpdate, Outcome, Series, Side, TopOfBook,
    WindowId, WindowLifecycle,
};

verus! {

/// How long something takes on the paper venue.
#[derive(Clone, Copy, PartialEq, Eq, Structural, Debug)]
pub struct LatencySpec {
    /// On the whole, milliseconds.
    pub mean_ms: i64,
    /// By how much it varies, milliseconds.
    pub jitter_ms: i64,
}

/// The configured paper venue.
#[derive(Clone, Copy, PartialEq, Eq, Structural, Debug)]
pub struct PaperConfig {
    /// The capital to start with.
    pub starting_capital: Amount,
    /// How long placing an order takes.
    pub placement_latency: LatencySpec,
    /// How long cancelling an order takes.
    pub cancel_latency: LatencySpec,
    /// How long the venue holds a taker's order, milliseconds.
    pub venue_taker_delay_ms: i64,
    /// The fee rate where a market tells none.
    pub default_fee_rate: Amount,
    /// The makers' share of the fees.
    pub maker_rebate_share: Amount,
    /// Whether takers get a rebate.
    pub taker_rebate_enabled: bool,
}

/// What the paper venue goes by.
#[derive(Clone, Copy, PartialEq, Eq, Structural, Debug)]
pub struct PaperParams {
    /// The configured values.
    pub config: PaperConfig,
    /// Events that may wait to be read.
    pub event_channel_capacity: usize,
    /// What its chance starts from.
    pub rng_seed: u64,
}

/// What chance starts from at an instant: an odd number.
pub open spec fn seed_at(now_ms: i64) -> int {
    if now_ms < 0 {
        1
    } else if now_ms % 2 == 0 {
        now_ms + 1
    } else {
        now_ms as int
    }
}

/// What the paper venue goes by: the configured values, and chance that starts from the clock,
/// so that runs differ.
pub fn paper_params(config: PaperConfig, now_ms: i64) -> (r: PaperParams)
    ensures
        r.config == config,
        r.event_channel_capacity == 1024,
        r.rng_seed == seed_at(now_ms),
{
    let rng_seed: u64 = if now_ms < 0 {
        1
    } else if now_ms % 2 == 0 {
        now_ms as u64 + 1
    } else {
        now_ms as u64
    };
    PaperParams { config, event_channel_capacity: 1024, rng_seed }
}

/// Lines of the events pane.
pub const PAPER_PANE_LINES: usize = 10;

/// One of our orders that is not done.
#[derive(Clone, Copy, PartialEq, Eq, Structural, Debug)]
pub struct WorkingOrder {
    /// The side.
    pub side: Side,
    /// The limit price.
    pub price: Amount,
    /// Shares filled so far.
    pub filled: Amount,
}

impl View for WorkingOrder {
    type V = WorkingOrder;

    open spec fn view(&self) -> WorkingOrder {
        *self
    }
}

/// What the venue's books say.
#[derive(Clone, Debug)]
pub struct PaperBooks {
    /// The collateral.
    pub collateral: Amount,
    /// Fees paid.
    pub fees_paid: Amount,
    /// Rebates earned and not yet paid.
    pub rebate_accrued: Amount,
    /// Rebates paid.
    pub rebate_credited: Amount,
    /// Positions by token.
    pub positions: Vec<(Id, Figure)>,
}

/// What the paper session's view knows.
#[derive(Clone, Debug)]
pub struct PaperState {
    series: Series,
    starting_capital: Amount,
    current: Option<MarketInfo>,
    lifecycle: Option<WindowLifecycle>,
    up_top: Option<TopOfBook>,
    down_top: Option<TopOfBook>,
    working: Table<Id, WorkingOrder>,
    quotes_placed: u64,
    fill_count: u64,
    maker_fills: u64,
    taker_fills: u64,
    merges: u64,
    events: EventPane,
}

/// What a [`PaperState`] holds.
pub struct PaperView {
    pub series: Series,
    pub starting_capital: Amount,
    pub current: Option<MarketInfo>,
    pub lifecycle: Option<WindowLifecycle>,
    pub up_top: Option<TopOfBook>,
    pub down_top: Option<TopOfBook>,
    pub working: Seq<(Seq<char>, WorkingOrder)>,
    pub quotes_placed: nat,
    pub fill_count: nat,
    pub maker_fills: nat,
    pub taker_fills: nat,
    pub merges: nat,
    pub events: Seq<Seq<char>>,
}

impl View for PaperState {
    type V = PaperView;

    closed spec fn view(&self) -> PaperView {
        PaperView {
            series: self.series,
            starting_capital: self.starting_capital,
            current: self.current,
            lifecycle: self.lifecycle,
            up_top: self.up_top,
            down_top: self.down_top,
            working: self.working@,
            quotes_placed: self.quotes_placed as nat,
            fill_count: self.fill_count as nat,
            maker_fills: self.maker_fills as nat,
            taker_fills: self.taker_fills as nat,
            merges: self.merges as nat,
            events: self.events@,
        }
    }
}

/// What is noted of a refused order.
pub open spec fn reject_line(u: OrderUpdate) -> Seq<char> {
    "REJECT "@ + screen::tail_spec(u.order_id@, 12) + " "@ + u.side.text_spec() + " "@ + (
    match u.reject_reason {
        Some(r) => r@,
        None => ""@,
    })
}

/// What is noted of a fill.
pub open spec fn fill_line(f: Fill) -> Seq<char> {
    "FILL "@ + f.side.text_spec() + " "@ + f.size.text_spec() + " @ "@ + f.price.text_spec()
        + " ("@ + f.liquidity.text_spec() + (if f.fee.value() == 0 {
        ""@
    } else {
        ", fee "@ + f.fee.text_spec()
    }) + ")"@
}

/// What is noted of a settled window.
pub open spec fn settled_line(slug: Seq<char>, outcome: Outcome, collateral: Amount) -> Seq<char> {
    "SETTLED "@ + slug + " -> "@ + outcome.text_spec() + "  collateral "@ + collateral.text_spec()
}

/// What is noted of merged pairs.
pub open spec fn merge_line(pairs: Amount) -> Seq<char> {
    "MERGE "@ + pairs.text_spec() + " pairs -> collateral"@
}

/// What is noted of added capital.
pub open spec fn capital_line(delta: Amount, collateral: Amount) -> Seq<char> {
    "CAPITAL +"@ + delta.text_spec() + " -> collateral "@ + collateral.text_spec()
}

impl PaperView {
    /// With a line in the events pane.
    pub open spec fn noted(self, now_ms: i64, line: Seq<char>) -> PaperView {
        PaperView {
            events: screen::with_line(self.events, PAPER_PANE_LINES as nat, now_ms as int, line),
            ..self
        }
    }

    /// Whether a window is the current one.
    pub open spec fn is_current(self, window: WindowId) -> bool {
        self.current matches Some(m) && m.window == window
    }

    /// After a market event. Only the view's own series counts.
    pub open spec fn with_window(
        self,
        market: MarketInfo,
        lifecycle: WindowLifecycle,
        now_ms: i64,
    ) -> PaperView {
        if market.window.series != self.series {
            self
        } else {
            match lifecycle {
                WindowLifecycle::Open => PaperView {
                    current: Some(market),
                    lifecycle: Some(lifecycle),
                    up_top: None,
                    down_top: None,
                    working: Seq::empty(),
                    ..self
                }.noted(now_ms, "OPEN "@ + market.event_slug@),
                WindowLifecycle::Closing | WindowLifecycle::Closed => if self.is_current(
                    market.window,
                ) {
                    PaperView { lifecycle: Some(lifecycle), ..self }
                } else {
                    self
                },
                _ => self,
            }
        }
    }

    /// After the top of a token's book.
    pub open spec fn with_top(self, token: Seq<char>, top: TopOfBook) -> PaperView {
        match self.current {
            None => self,
            Some(m) => if token == m.up_token@ {
                PaperView { up_top: Some(top), ..self }
            } else if token == m.down_token@ {
                PaperView { down_top: Some(top), ..self }
            } else {
                self
            },
        }
    }

    /// After an order update: an order that is done goes, any other is kept.
    pub open spec fn with_order(self, u: OrderUpdate, now_ms: i64) -> PaperView {
        if u.state.is_terminal_spec() {
            let without = PaperView { working: cut(self.working, u.order_id@), ..self };
            if u.state == OrderState::Rejected {
                without.noted(now_ms, reject_line(u))
            } else {
                without
            }
        } else {
            PaperView {
                working: put(
                    self.working,
                    u.order_id@,
                    WorkingOrder { side: u.side, price: u.price, filled: u.filled_size },
                ),
                ..self
            }
        }
    }

    /// After a fill.
    pub open spec fn with_fill(self, f: Fill, now_ms: i64) -> PaperView {
        PaperView {
            fill_count: self.fill_count + 1,
            maker_fills: if f.liquidity == Liquidity::Maker {
                self.maker_fills + 1
            } else {
                self.maker_fills
            },
            taker_fills: if f.liquidity == Liquidity::Taker {
                self.taker_fills + 1
            } else {
                self.taker_fills
            },
            ..self.noted(now_ms, fill_line(f))
        }
    }
}

/// Orders with one more in its place, by identifier.
pub open spec fn placed(
    s: Seq<(Seq<char>, WorkingOrder)>,
    e: (Seq<char>, WorkingOrder),
) -> Seq<(Seq<char>, WorkingOrder)>
    decreases s.len(),
{
    if s.len() > 0 && text::text_before(e.0, s.last().0) {
        placed(s.drop_last(), e).push(s.last())
    } else {
        s.push(e)
    }
}

/// Orders by identifier.
pub open spec fn by_id(s: Seq<(Seq<char>, WorkingOrder)>) -> Seq<(Seq<char>, WorkingOrder)>
    decreases s.len(),
{
    if s.len() == 0 {
        Seq::empty()
    } else {
        placed(by_id(s.drop_last()), s.last())
    }
}

/// The line of one of our orders.
pub open spec fn order_line(e: (Seq<char>, WorkingOrder)) -> Seq<char> {
    "  "@ + text::padded_right(screen::tail_spec(e.0, 12), 14) + " "@ + e.1.side.text_spec()
        + " @ "@ + e.1.price.text_spec() + " filled "@ + e.1.filled.text_spec() + "\n"@
}

/// The lines of some orders.
pub open spec fn order_lines(s: Seq<(Seq<char>, WorkingOrder)>) -> Seq<char>
    decreases s.len(),
{
    if s.len() == 0 {
        Seq::empty()
    } else {
        order_lines(s.drop_last()) + order_line(s.last())
    }
}

/// Our quotes.
pub open spec fn quotes_text(working: Seq<(Seq<char>, WorkingOrder)>) -> Seq<char> {
    if working.len() == 0 {
        "our quotes:\n"@ + "  (none resting)\n"@
    } else {
        "our quotes:\n"@ + order_lines(by_id(working))
    }
}

/// The lines of some positions.
pub open spec fn position_lines(s: Seq<(Id, Figure)>) -> Seq<char>
    decreases s.len(),
{
    if s.len() == 0 {
        Seq::empty()
    } else {
        position_lines(s.drop_last()) + "  "@ + screen::tail_spec(s.last().0@, 12) + " : "@
            + s.last().1.text_spec() + "\n"@
    }
}

/// The lines on the current window.
pub open spec fn window_lines(v: PaperView, connections: nat, now_ms: i64) -> Seq<char> {
    match v.current {
        None => "waiting for the current window\u{2026}\n"@,
        Some(m) => m.window.text_spec() + "  phase "@ + text::padded_right(
            screen::phase_text(v.lifecycle),
            9,
        ) + " closes in "@ + text::padded_left(
            calendar::countdown_spec(screen::time_between(now_ms as int, m.close_ms as int)),
            8,
            ' ',
        ) + "  polymarket.com/event/"@ + m.event_slug@ + "\n"@ + "feed: "@ + text::digits(
            connections,
        ) + " connection(s) up   "@ + screen::top_text("Up"@, v.up_top) + "\n"@
            + "                          "@ + screen::top_text("Down"@, v.down_top) + "\n"@,
    }
}

/// The lines on the wallet.
pub open spec fn wallet_lines(v: PaperView, b: PaperBooks) -> Seq<char> {
    "wallet: collateral "@ + b.collateral.text_spec() + "  (start "@ + v.starting_capital.text_spec()
        + ", \u{394} "@ + Amount::difference_of(b.collateral, v.starting_capital).text_spec()
        + ")  positions "@ + text::digits(b.positions@.len()) + "\n"@ + position_lines(b.positions@)
        + "stats: quotes placed "@ + text::digits(v.quotes_placed) + "  fills "@ + text::digits(
        v.fill_count,
    ) + " ("@ + text::digits(v.maker_fills) + " maker / "@ + text::digits(v.taker_fills)
        + " taker)  merges "@ + text::digits(v.merges) + "\n"@ + "income: fees "@
        + b.fees_paid.text_spec() + "  rebate accrued "@ + b.rebate_accrued.text_spec()
        + "  credited "@ + b.rebate_credited.text_spec() + "\n"@
}

/// The whole view.
pub open spec fn paper_frame(v: PaperView, connections: nat, b: PaperBooks, now_ms: i64) -> Seq<
    char,
> {
    screen::clear_screen() + "paper-sim ["@ + v.series.key_spec() + "]  (real data, paper money)\n"@
        + window_lines(v, connections, now_ms) + "\n"@ + quotes_text(v.working) + "\n"@
        + wallet_lines(v, b) + "\n"@ + screen::pane_text(v.events)
}

/// The summary of a session.
pub open spec fn paper_summary(v: PaperView, b: PaperBooks) -> Seq<char> {
    "\npaper-sim summary: "@ + text::digits(v.fill_count) + " fills ("@ + text::digits(
        v.maker_fills,
    ) + " maker / "@ + text::digits(v.taker_fills) + " taker), fees "@ + b.fees_paid.text_spec()
        + ", rebate credited "@ + b.rebate_credited.text_spec() + ", "@ + text::digits(v.merges)
        + " merges, final collateral "@ + b.collateral.text_spec()
}

impl PaperState {
    /// Whether nothing is held twice, and the pane has its size.
    pub closed spec fn wf(&self) -> bool {
        unique_keys(self.working@) && self.events.cap() == PAPER_PANE_LINES
    }

    /// A view of a series.
    pub fn new(series: Series, starting_capital: Amount) -> (r: PaperState)
        ensures
            r.wf(),
            r@ == (PaperView {
                series,
                starting_capital,
                current: None,
                lifecycle: None,
                up_top: None,
                down_top: None,
                working: Seq::empty(),
                quotes_placed: 0,
                fill_count: 0,
                maker_fills: 0,
                taker_fills: 0,
                merges: 0,
                events: Seq::empty(),
            }),
    {
        PaperState {
            series,
            starting_capital,
            current: None,
            lifecycle: None,
            up_top: None,
            down_top: None,
            working: Table::new(),
            quotes_placed: 0,
            fill_count: 0,
            maker_fills: 0,
            taker_fills: 0,
            merges: 0,
            events: EventPane::new(PAPER_PANE_LINES),
        }
    }

    /// Takes a market event in.
    pub fn on_window(&mut self, market: &MarketInfo, lifecycle: WindowLifecycle, now_ms: i64)
        requires
            old(self).wf(),
        ensures
            final(self).wf(),
            final(self)@ == old(self)@.with_window(*market, lifecycle, now_ms),
    {
        if market.window.series != self.series {
            return;
        }
        match lifecycle {
            WindowLifecycle::Open => {
                self.current = Some(market.duplicate());
                self.lifecycle = Some(lifecycle);
                self.up_top = None;
                self.down_top = None;
                self.working.clear();
                self.events.push(
                    now_ms,
                    text::join2("OPEN ", market.event_slug.as_str()).as_str(),
                );
            },
            WindowLifecycle::Closing | WindowLifecycle::Closed => {
                let ours = match &self.current {
                    Some(m) => m.window == market.window,
                    None => false,
                };
                if ours {
                    self.lifecycle = Some(lifecycle);
                }
            },
            _ => {},
        }
    }

    /// Takes the top of a token's book in.
    pub fn on_top(&mut self, token: &Id, top: TopOfBook)
        requires
            old(self).wf(),
        ensures
            final(self).wf(),
            final(self)@ == old(self)@.with_top(token@, top),
    {
        let (up, down) = match &self.current {
            None => (false, false),
            Some(m) => (
                text::same(token.text.as_str(), m.up_token.text.as_str()),
                text::same(token.text.as_str(), m.down_token.text.as_str()),
            ),
        };
        if up {
            self.up_top = Some(top);
        } else if down {
            self.down_top = Some(top);
        }
    }

    /// Takes an order update in.
    pub fn on_order(&mut self, u: &OrderUpdate, now_ms: i64)
        requires
            old(self).wf(),
        ensures
            final(self).wf(),
            final(self)@ == old(self)@.with_order(*u, now_ms),
    {
        if u.state.is_terminal() {
            let _ = self.working.remove(&u.order_id);
            if u.state == OrderState::Rejected {
                let mut line = "REJECT ".to_owned();
                line.append(screen::tail(u.order_id.text.as_str(), 12).as_str());
                line.append(" ");
                line.append(u.side.text());
                line.append(" ");
                line.append(
                    match &u.reject_reason {
                        Some(r) => r.as_str(),
                        None => "",
                    },
                );
                self.events.push(now_ms, line.as_str());
            }
        } else {
            self.working.insert(
                u.order_id.duplicate(),
                WorkingOrder { side: u.side, price: u.price, filled: u.filled_size },
            );
        }
    }

    /// Takes a fill in.
    pub fn on_fill(&mut self, f: &Fill, now_ms: i64)
        requires
            old(self).wf(),
            old(self)@.fill_count < u64::MAX,
            old(self)@.maker_fills < u64::MAX,
            old(self)@.taker_fills < u64::MAX,
        ensures
            final(self).wf(),
            final(self)@ == old(self)@.with_fill(*f, now_ms),
    {
        self.fill_count = self.fill_count + 1;
        match f.liquidity {
            Liquidity::Maker => {
                self.maker_fills = self.maker_fills + 1;
            },
            Liquidity::Taker => {
                self.taker_fills = self.taker_fills + 1;
            },
        }
        let fee = if f.fee.is_zero() {
            "".to_owned()
        } else {
            text::join2(", fee ", f.fee.text().as_str())
        };
        let mut line = "FILL ".to_owned();
        line.append(f.side.text());
        line.append(" ");
        line.append(f.size.text().as_str());
        line.append(" @ ");
        line.append(f.price.text().as_str());
        line.append(" (");
        line.append(f.liquidity.text());
        line.append(fee.as_str());
        line.append(")");
        self.events.push(now_ms, line.as_str());
    }

    /// The current market.
    pub fn current(&self) -> (r: &Option<MarketInfo>)
        ensures
            *r == self@.current,
    {
        &self.current
    }

    /// The top of the Up book.
    pub fn up_top(&self) -> (r: Option<TopOfBook>)
        ensures
            r == self@.up_top,
    {
        self.up_top
    }

    /// The top of the Down book.
    pub fn down_top(&self) -> (r: Option<TopOfBook>)
        ensures
            r == self@.down_top,
    {
        self.down_top
    }

    /// Counts quotes that were placed.
    pub fn add_quotes(&mut self, n: u64)
        requires
            old(self).wf(),
            old(self)@.quotes_placed + n <= u64::MAX,
        ensures
            final(self).wf(),
            final(self)@ == (PaperView {
                quotes_placed: old(self)@.quotes_placed + n as nat,
                ..old(self)@
            }),
    {
        self.quotes_placed = self.quotes_placed + n;
    }

    /// Counts and notes merged pairs, where any were merged.
    pub fn on_merged(&mut self, pairs: Amount, now_ms: i64)
        requires
            old(self).wf(),
            old(self)@.merges < u64::MAX,
        ensures
            final(self).wf(),
            final(self)@ == (if pairs.value() == 0 {
                old(self)@
            } else {
                PaperView {
                    merges: old(self)@.merges + 1,
                    ..old(self)@.noted(now_ms, merge_line(pairs))
                }
            }),
    {
        if !pairs.is_zero() {
            self.merges = self.merges + 1;
            let line = text::join3("MERGE ", pairs.text().as_str(), " pairs -> collateral");
            self.events.push(now_ms, line.as_str());
        }
    }

    /// Notes a settled window of the view's series, with the collateral after it.
    pub fn on_settled(
        &mut self,
        market: &MarketInfo,
        outcome: Outcome,
        collateral: Amount,
        now_ms: i64,
    )
        requires
            old(self).wf(),
        ensures
            final(self).wf(),
            final(self)@ == (if market.window.series != old(self)@.series {
                old(self)@
            } else {
                old(self)@.noted(now_ms, settled_line(market.event_slug@, outcome, collateral))
            }),
    {
        if market.window.series == self.series {
            let mut line = text::join2("SETTLED ", market.event_slug.as_str());
            line.append(" -> ");
            line.append(outcome.text());
            line.append("  collateral ");
            line.append(collateral.text().as_str());
            self.events.push(now_ms, line.as_str());
        }
    }

    /// Notes added capital.
    pub fn on_capital(&mut self, delta: Amount, collateral: Amount, now_ms: i64)
        requires
            old(self).wf(),
        ensures
            final(self).wf(),
            final(self)@ == old(self)@.noted(now_ms, capital_line(delta, collateral)),
    {
        let mut line = text::join2("CAPITAL +", delta.text().as_str());
        line.append(" -> collateral ");
        line.append(collateral.text().as_str());
        self.events.push(now_ms, line.as_str());
    }

    /// The view as text.
    pub fn draw(&self, connections: usize, books: &PaperBooks, now_ms: i64) -> (r: String)
        requires
            self.wf(),
            self@.up_top matches Some(t) ==> t.sane(),
            self@.down_top matches Some(t) ==> t.sane(),
            abs_int(books.collateral.value() - self@.starting_capital.value()) <= max_value(),
        ensures
            r@ == paper_frame(self@, connections as nat, *books, now_ms),
    {
        let mut frame = "\u{1b}[H\u{1b}[J".to_owned();
        frame.append("paper-sim [");
        frame.append(self.series.key());
        frame.append("]  (real data, paper money)\n");
        frame.append(self.window_part(connections, now_ms).as_str());
        frame.append("\n");
        frame.append(self.quotes_part().as_str());
        frame.append("\n");
        frame.append(self.wallet_part(books).as_str());
        frame.append("\n");
        frame.append(self.events.text().as_str());
        frame
    }

    /// The lines on the current window.
    fn window_part(&self, connections: usize, now_ms: i64) -> (r: String)
        requires
            self@.up_top matches Some(t) ==> t.sane(),
            self@.down_top matches Some(t) ==> t.sane(),
        ensures
            r@ == window_lines(self@, connections as nat, now_ms),
    {
        match &self.current {
            None => "waiting for the current window\u{2026}\n".to_owned(),
            Some(m) => {
                let mut out = m.window.text();
                out.append("  phase ");
                out.append(text::pad_right(screen::phase(self.lifecycle).as_str(), 9).as_str());
                out.append(" closes in ");
                out.append(
                    text::pad_left(
                        calendar::fmt_countdown(screen::ms_between(now_ms, m.close_ms)).as_str(),
                        8,
                        ' ',
                    ).as_str(),
                );
                out.append("  polymarket.com/event/");
                out.append(m.event_slug.as_str());
                out.append("\n");
                out.append("feed: ");
                out.append(text::u64_text(connections as u64).as_str());
                out.append(" connection(s) up   ");
                out.append(screen::fmt_top("Up", self.up_top).as_str());
                out.append("\n");
                out.append("                          ");
                out.append(screen::fmt_top("Down", self.down_top).as_str());
                out.append("\n");
                out
            },
        }
    }

    /// Our quotes, by identifier.
    fn quotes_part(&self) -> (r: String)
        requires
            self.wf(),
        ensures
            r@ == quotes_text(self@.working),
    {
        let head = "our quotes:\n";
        if self.working.is_empty() {
            return text::join2(head, "  (none resting)\n");
        }
        let order = self.sorted();
        let ghost all = by_id(self@.working);
        let mut out = String::new();
        let mut i: usize = 0;
        assert(all.subrange(0, 0) =~= Seq::empty());
        while i < order.len()
            invariant
                i <= order@.len(),
                all == by_id(self@.working),
                self@.working == self.working@,
                order@.len() == all.len(),
                forall|j: int|
                    0 <= j < order@.len() ==> #[trigger] order@[j] < self.working@.len()
                        && self.working@[order@[j] as int] == all[j],
                out@ == order_lines(all.subrange(0, i as int)),
            decreases order.len() - i,
        {
            proof {
                let part = all.subrange(0, i + 1);
                assert(part.drop_last() =~= all.subrange(0, i as int));
                assert(part.last() == all[i as int]);
            }
            let at: usize = order[i];
            let id = self.working.key_at(at);
            let o = self.working.value_at(at);
            let mut line = "  ".to_owned();
            line.append(
                text::pad_right(screen::tail(id.text.as_str(), 12).as_str(), 14).as_str(),
            );
            line.append(" ");
            line.append(o.side.text());
            line.append(" @ ");
            line.append(o.price.text().as_str());
            line.append(" filled ");
            line.append(o.filled.text().as_str());
            line.append("\n");
            out.append(line.as_str());
            i = i + 1;
        }
        assert(all.subrange(0, i as int) =~= all);
        text::join2(head, out.as_str())
    }

    /// The places of our orders, by identifier.
    fn sorted(&self) -> (r: Vec<usize>)
        ensures
            r@.len() == by_id(self@.working).len(),
            forall|j: int|
                0 <= j < r@.len() ==> #[trigger] r@[j] < self.working@.len()
                    && self.working@[r@[j] as int] == by_id(self@.working)[j],
    {
        let ghost all = self.working@;
        let mut order: Vec<usize> = Vec::new();
        let n: usize = self.working.len();
        let mut i: usize = 0;
        assert(all.subrange(0, 0) =~= Seq::empty());
        while i < n
            invariant
                i <= n == all.len(),
                all == self.working@,
                order@.len() == by_id(all.subrange(0, i as int)).len(),
                forall|j: int|
                    0 <= j < order@.len() ==> #[trigger] order@[j] < n && all[order@[j] as int]
                        == by_id(all.subrange(0, i as int))[j],
            decreases n - i,
        {
            let ghost e = all[i as int];
            let ghost s = by_id(all.subrange(0, i as int));
            let ghost before = order@;
            proof {
                let part = all.subrange(0, i + 1);
                assert(part.drop_last() =~= all.subrange(0, i as int));
                assert(part.last() == e);
            }
            let mut at: usize = order.len();
            assert(s.subrange(0, at as int) =~= s);
            assert(placed(s, e) =~= placed(s.subrange(0, at as int), e) + s.subrange(
                at as int,
                s.len() as int,
            ));
            while at > 0 && text::comes_before(
                self.working.key_at(i).text.as_str(),
                self.working.key_at(order[at - 1]).text.as_str(),
            )
                invariant
                    i < n == all.len(),
                    all == self.working@,
                    e == all[i as int],
                    at <= s.len(),
                    order@ == before,
                    order@.len() == s.len(),
                    forall|j: int|
                        0 <= j < order@.len() ==> #[trigger] order@[j] < n && all[order@[j] as int]
                            == s[j],
                    placed(s, e) == placed(s.subrange(0, at as int), e) + s.subrange(
                        at as int,
                        s.len() as int,
                    ),
                decreases at,
            {
                proof {
                    let part = s.subrange(0, at as int);
                    assert(part.last() == s[at - 1]);
                    assert(part.drop_last() =~= s.subrange(0, at - 1));
                    assert(placed(part, e) + s.subrange(at as int, s.len() as int) =~= placed(
                        s.subrange(0, at - 1),
                        e,
                    ) + s.subrange(at - 1, s.len() as int));
                }
                at = at - 1;
            }
            order.insert(at, i);
            proof {
                let part = s.subrange(0, at as int);
                if at > 0 {
                    assert(part.last() == s[at - 1]);
                }
                assert(placed(part, e) =~= part.push(e));
                let now = placed(s, e);
                assert(now =~= s.insert(at as int, e));
                assert forall|j: int| 0 <= j < order@.len() implies #[trigger] order@[j] < n
                    && all[order@[j] as int] == now[j] by {
                    if j < at {
                        assert(order@[j] == before[j]);
                    } else if j > at {
                        assert(order@[j] == before[j - 1]);
                    }
                }
            }
            i = i + 1;
        }
        assert(all.subrange(0, i as int) =~= all);
        order
    }

    /// The lines on the wallet.
    fn wallet_part(&self, b: &PaperBooks) -> (r: String)
        requires
            abs_int(b.collateral.value() - self@.starting_capital.value()) <= max_value(),
        ensures
            r@ == wallet_lines(self@, *b),
    {
        let pnl = b.collateral.minus(&self.starting_capital);
        let mut out = "wallet: collateral ".to_owned();
        out.append(b.collateral.text().as_str());
        out.append("  (start ");
        out.append(self.starting_capital.text().as_str());
        out.append(", \u{394} ");
        out.append(pnl.text().as_str());
        out.append(")  positions ");
        out.append(text::u64_text(b.positions.len() as u64).as_str());
        out.append("\n");
        out.append(positions_part(&b.positions).as_str());
        out.append("stats: quotes placed ");
        out.append(text::u64_text(self.quotes_placed).as_str());
        out.append("  fills ");
        out.append(text::u64_text(self.fill_count).as_str());
        out.append(" (");
        out.append(text::u64_text(self.maker_fills).as_str());
        out.append(" maker / ");
        out.append(text::u64_text(self.taker_fills).as_str());
        out.append(" taker)  merges ");
        out.append(text::u64_text(self.merges).as_str());
        out.append("\n");
        out.append("income: fees ");
        out.append(b.fees_paid.text().as_str());
        out.append("  rebate accrued ");
        out.append(b.rebate_accrued.text().as_str());
        out.append("  credited ");
        out.append(b.rebate_credited.text().as_str());
        out.append("\n");
        out
    }

    /// The summary of a session.
    pub fn summary(&self, b: &PaperBooks) -> (r: String)
        ensures
            r@ == paper_summary(self@, *b),
    {
        let mut out = "\npaper-sim summary: ".to_owned();
        out.append(text::u64_text(self.fill_count).as_str());
        out.append(" fills (");
        out.append(text::u64_text(self.maker_fills).as_str());
        out.append(" maker / ");
        out.append(text::u64_text(self.taker_fills).as_str());
        out.append(" taker), fees ");
        out.append(b.fees_paid.text().as_str());
        out.append(", rebate credited ");
        out.append(b.rebate_credited.text().as_str());
        out.append(", ");
        out.append(text::u64_text(self.merges).as_str());
        out.append(" merges, final collateral ");
        out.append(b.collateral.text().as_str());
        out
    }
}

/// The lines of some positions.
fn positions_part(s: &Vec<(Id, Figure)>) -> (r: String)
    ensures
        r@ == position_lines(s@),
{
    let mut out = String::new();
    let mut i: usize = 0;
    assert(s@.subrange(0, 0) =~= Seq::empty());
    while i < s.len()
        invariant
            i <= s@.len(),
            out@ == position_lines(s@.subrange(0, i as int)),
        decreases s.len() - i,
    {
        proof {
            let part = s@.subrange(0, i + 1);
            assert(part.drop_last() =~= s@.subrange(0, i as int));
            assert(part.last() == s@[i as int]);
        }
        out.append("  ");
        out.append(screen::tail(s[i].0.text.as_str(), 12).as_str());
        out.append(" : ");
        out.append(s[i].1.text().as_str());
        out.append("\n");
        i = i + 1;
    }
    assert(s@.subrange(0, i as int) =~= s@);
    out
}

/// Every fill is a maker fill or a taker fill: the two counts add up to the fills.
pub proof fn law_fills_add_up(v: PaperView, f: Fill, now_ms: i64)
    requires
        v.fill_count == v.maker_fills + v.taker_fills,
    ensures
        ({
            let after = v.with_fill(f, now_ms);
            after.fill_count == after.maker_fills + after.taker_fills
        }),
{
}

/// A fill counts once as a fill and once by its liquidity, and in no other count.
pub proof fn law_fill_counts_by_its_liquidity(v: PaperView, f: Fill, now_ms: i64)
    ensures
        ({
            let after = v.with_fill(f, now_ms);
            &&& after.fill_count == v.fill_count + 1
            &&& f.liquidity == Liquidity::Maker ==> after.maker_fills == v.maker_fills + 1
                && after.taker_fills == v.taker_fills
            &&& f.liquidity == Liquidity::Taker ==> after.taker_fills == v.taker_fills + 1
                && after.maker_fills == v.maker_fills
            &&& after.working == v.working && after.merges == v.merges && after.quotes_placed
                == v.quotes_placed && after.current == v.current
        }),
{
}

/// Chance starts from an odd number: from the clock's own, or the next where that is even.
pub proof fn law_seed_is_odd(now_ms: i64)
    ensures
        seed_at(now_ms) % 2 == 1,
        seed_at(now_ms) > 0,
        now_ms >= 0 ==> now_ms <= seed_at(now_ms) <= now_ms + 1,
{
}

/// A window of the view's series that opens becomes the current one, with no book and no order of
/// ours; one that is closing or closed changes the phase where it is the current one. No other
/// series' window and no other event of its own changes anything.
pub proof fn law_view_follows_its_own_series(
    v: PaperView,
    market: MarketInfo,
    lifecycle: WindowLifecycle,
    now_ms: i64,
)
    ensures
        ({
            let after = v.with_window(market, lifecycle, now_ms);
            let own = market.window.series == v.series;
            let ours = v.current matches Some(m) && m.window == market.window;
            &&& !own ==> after == v
            &&& own && lifecycle is Open ==> after.current == Some(market) && after.lifecycle
                == Some(lifecycle) && after.up_top is None && after.down_top is None
                && after.working.len() == 0
            &&& own && (lifecycle is Closing || lifecycle is Closed) ==> after == PaperView {
                lifecycle: after.lifecycle,
                ..v
            } && after.lifecycle == (if ours {
                Some(lifecycle)
            } else {
                v.lifecycle
            })
            &&& !(lifecycle is Open || lifecycle is Closing || lifecycle is Closed) ==> after == v
            &&& after.fill_count == v.fill_count && after.merges == v.merges
                && after.quotes_placed == v.quotes_placed
        }),
{
}

/// A book's top is kept on the side of its token, in the current window and nowhere else.
pub proof fn law_top_is_kept_on_its_side(v: PaperView, token: Seq<char>, top: TopOfBook)
    ensures
        v.current is None ==> v.with_top(token, top) == v,
        v.current matches Some(m) ==> m.up_token@ != m.down_token@ ==> {
            let after = v.with_top(token, top);
            &&& after.up_top == (if token == m.up_token@ {
                Some(top)
            } else {
                v.up_top
            })
            &&& after.down_top == (if token == m.down_token@ {
                Some(top)
            } else {
                v.down_top
            })
        },
{
}

/// An order is shown while it works, as its last update has it, and no longer; no other order
/// changes. Only a refusal is noted.
pub proof fn law_order_is_shown_while_it_works(
    v: PaperView,
    u: OrderUpdate,
    now_ms: i64,
    other: Seq<char>,
)
    requires
        unique_keys(v.working),
    ensures
        ({
            let after = v.with_order(u, now_ms);
            let done = u.state == OrderState::Canceled || u.state == OrderState::Filled || u.state
                == OrderState::Rejected;
            &&& done ==> lookup(after.working, u.order_id@) is None
            &&& !done ==> lookup(after.working, u.order_id@) == Some(
                WorkingOrder { side: u.side, price: u.price, filled: u.filled_size },
            )
            &&& other != u.order_id@ ==> lookup(after.working, other) == lookup(v.working, other)
            &&& u.state != OrderState::Rejected ==> after.events == v.events
        }),
{
    crate::table::lemma_cut(v.working, u.order_id@);
    crate::table::lemma_put(
        v.working,
        u.order_id@,
        WorkingOrder { side: u.side, price: u.price, filled: u.filled_size },
    );
    assert(lookup(v.working, other) == lookup(v.working, other));
}

/// How long a session runs before its capital is raised, milliseconds.
pub const CAPITAL_DEMO_AFTER_MS: u64 = 30_000;

/// By how much the capital is raised.
pub const CAPITAL_DEMO_DELTA: i64 = 1_000;

/// The one change of capital that a session makes while it runs.
#[derive(Clone, Copy, PartialEq, Eq, Structural, Debug)]
pub struct CapitalDemo {
    /// Whether it has been made.
    pub done: bool,
}

impl CapitalDemo {
    /// Not made yet.
    pub fn new() -> (r: CapitalDemo)
        ensures
            !r.done,
    {
        CapitalDemo { done: false }
    }

    /// Before a frame is drawn: the amount by which the capital is now to be raised, where it is
    /// time and it has not been.
    pub fn on_render(&mut self, ran_ms: u64) -> (r: Option<Amount>)
        ensures
            final(self).done == (old(self).done || ran_ms >= CAPITAL_DEMO_AFTER_MS),
            r is Some <==> !old(self).done && ran_ms >= 30_000,
            r matches Some(delta) ==> delta.value() == 1_000 * UNIT,
            match r {
                Some(delta) => !old(self).done && final(self).done && delta.value()
                    == CAPITAL_DEMO_DELTA * UNIT,
                None => final(self).done == old(self).done,
            },
    {
        if self.done || ran_ms < CAPITAL_DEMO_AFTER_MS {
            return None;
        }
        self.done = true;
        Some(Amount::from_i64(CAPITAL_DEMO_DELTA))
    }
}

/// What a round of quoting does.
#[derive(Clone, Debug)]
pub struct PaperRound {
    /// The pairs to merge back to collateral first.
    pub merge: Option<Amount>,
    /// The orders that replace what rests; `None` where it stays.
    pub orders: Option<Vec<NewOrder>>,
}

impl PaperState {
    /// A round of quoting, given the positions: nothing before there are a window and an Up book;
    /// otherwise pairs are merged, and quotes join the touch where the book has both sides.
    pub fn round(&self, positions: &Vec<(Id, Figure)>) -> (r: PaperRound)
        ensures
            self@.current is None || self@.up_top is None ==> r.merge is None && r.orders is None,
            self@.current matches Some(market) ==> self@.up_top is Some ==> {
                let quotes = round_orders(market, self@.up_top, self@.down_top);
                &&& r.merge == mergeable(positions@, market)
                &&& match r.orders {
                    Some(orders) => quotes.len() > 0 && order_views(orders@) == quotes,
                    None => quotes.len() == 0,
                }
            },
    {
        match &self.current {
            Some(market) if self.up_top.is_some() => PaperRound {
                merge: merge_pairs(positions, market),
                orders: quote_round(&self.current, self.up_top, self.down_top),
            },
            _ => PaperRound { merge: None, orders: None },
        }
    }
}

/// The pane holds the newest ten lines.
pub proof fn law_pane_holds_ten_lines(v: PaperView, now_ms: i64, line: Seq<char>)
    requires
        v.events.len() <= 10,
    ensures
        v.noted(now_ms, line).events.len() <= 10,
        v.events.len() < 10 ==> v.noted(now_ms, line).events.len() == v.events.len() + 1,
        v.noted(now_ms, line).events.last() == calendar::fmt_ts_spec(now_ms as int) + " "@ + line,
{
}

/// Our quotes are shown by identifier: each of them, and none behind one that comes after it.
pub proof fn law_quotes_stand_by_identifier(s: Seq<(Seq<char>, WorkingOrder)>, i: int, j: int)
    requires
        0 <= i < j < by_id(s).len(),
    ensures
        by_id(s).len() == s.len(),
        !text::text_before(by_id(s)[j].0, by_id(s)[i].0),
        s.contains(by_id(s)[i]),
{
    lemma_by_id(s);
    assert(by_id(s).contains(by_id(s)[i]));
}

proof fn lemma_by_id(s: Seq<(Seq<char>, WorkingOrder)>)
    ensures
        by_id(s).len() == s.len(),
        forall|i: int, j: int|
            0 <= i < j < by_id(s).len() ==> !text::text_before(
                (#[trigger] by_id(s)[j]).0,
                (#[trigger] by_id(s)[i]).0,
            ),
        forall|e: (Seq<char>, WorkingOrder)| #[trigger] by_id(s).contains(e) <==> s.contains(e),
    decreases s.len(),
{
    if s.len() > 0 {
        let rest = s.drop_last();
        lemma_by_id(rest);
        lemma_placed(by_id(rest), s.last());
        assert(rest.push(s.last()) =~= s);
        assert forall|e: (Seq<char>, WorkingOrder)| #[trigger] by_id(s).contains(e) <==> s.contains(e) by {
            if s.contains(e) {
                let k = choose|k: int| 0 <= k < s.len() && s[k] == e;
                if k < rest.len() {
                    assert(rest[k] == e);
                    assert(by_id(rest).contains(e));
                }
            }
            if rest.contains(e) {
                let k = choose|k: int| 0 <= k < rest.len() && rest[k] == e;
                assert(s[k] == e);
            }
            assert(s[s.len() - 1] == s.last());
            assert(by_id(rest).contains(e) <==> rest.contains(e));
        }
    }
}

proof fn lemma_placed(s: Seq<(Seq<char>, WorkingOrder)>, e: (Seq<char>, WorkingOrder))
    requires
        forall|i: int, j: int|
            0 <= i < j < s.len() ==> !text::text_before((#[trigger] s[j]).0, (#[trigger] s[i]).0),
    ensures
        placed(s, e).len() == s.len() + 1,
        forall|i: int, j: int|
            0 <= i < j < placed(s, e).len() ==> !text::text_before(
                (#[trigger] placed(s, e)[j]).0,
                (#[trigger] placed(s, e)[i]).0,
            ),
        forall|x: (Seq<char>, WorkingOrder)| #[trigger]
            placed(s, e).contains(x) <==> s.contains(x) || x == e,
    decreases s.len(),
{
    let t = placed(s, e);
    if s.len() > 0 && text::text_before(e.0, s.last().0) {
        let rest = s.drop_last();
        let last = s.last();
        assert forall|i: int, j: int| 0 <= i < j < rest.len() implies !text::text_before(
            (#[trigger] rest[j]).0,
            (#[trigger] rest[i]).0,
        ) by {
            assert(rest[i] == s[i] && rest[j] == s[j]);
        }
        lemma_placed(rest, e);
        let u = placed(rest, e);
        text::lemma_text_order(e.0, last.0);
        assert(s[s.len() - 1] == last);
        assert forall|i: int, j: int| 0 <= i < j < t.len() implies !text::text_before(
            (#[trigger] t[j]).0,
            (#[trigger] t[i]).0,
        ) by {
            assert(t[i] == u[i]);
            if j < u.len() {
                assert(t[j] == u[j]);
            } else {
                assert(u.contains(u[i]));
                if u[i] != e {
                    let m = choose|m: int| 0 <= m < rest.len() && rest[m] == u[i];
                    assert(s[m] == u[i]);
                }
            }
        }
        assert forall|x: (Seq<char>, WorkingOrder)| #[trigger]
            t.contains(x) <==> s.contains(x) || x == e by {
            assert(u.contains(x) <==> rest.contains(x) || x == e);
            crate::digest::lemma_pushed_contains(u, last, x);
            crate::digest::lemma_pushed_contains(rest, last, x);
            assert(rest.push(last) =~= s);
        }
    } else {
        assert forall|i: int, j: int| 0 <= i < j < t.len() implies !text::text_before(
            (#[trigger] t[j]).0,
            (#[trigger] t[i]).0,
        ) by {
            assert(t[i] == s[i]);
            if j < s.len() {
                assert(t[j] == s[j]);
            } else {
                let last = s[s.len() - 1];
                if i < s.len() - 1 {
                    assert(!text::text_before(last.0, s[i].0));
                    text::lemma_text_order(last.0, s[i].0);
                    text::lemma_text_order(e.0, last.0);
                    text::lemma_text_order(e.0, s[i].0);
                    if text::text_before(e.0, s[i].0) {
                        if text::text_before(s[i].0, last.0) {
                            text::lemma_text_order_carries(e.0, s[i].0, last.0);
                        }
                    }
                }
            }
        }
        assert forall|x: (Seq<char>, WorkingOrder)| #[trigger]
            t.contains(x) <==> s.contains(x) || x == e by {
            crate::digest::lemma_pushed_contains(s, e, x);
        }
    }
}

} // verus!
