//! The ladder view: one series' current window, its two books, and what happened lately.

use vstd::prelude::*;
use vstd::string::*;

use crate::calendar;
use crate::decimal::Amount;
use crate::screen;
use crate::screen::EventPane;
use crate::table::{kept, lookup, put, unique_keys, Table};
use crate::text;
use crate::types::{Id, Level, MarketInfo, Outcome, Series, TopOfBook, WindowId, WindowLifecycle};

verus! {

/// Lines of the events pane.
pub const LADDER_PANE_LINES: usize = 8;

/// A book, best levels first.
#[derive(Clone, Debug)]
pub struct BookSnapshot {
    /// Bids, best first.
    pub bids: Vec<Level>,
    /// Asks, best first.
    pub asks: Vec<Level>,
}

/// A book's levels as sequences.
pub struct BookView {
    pub bids: Seq<Level>,
    pub asks: Seq<Level>,
}

impl View for BookSnapshot {
    type V = BookView;

    open spec fn view(&self) -> BookView {
        BookView { bids: self.bids@, asks: self.asks@ }
    }
}

impl BookView {
    /// The best bid and ask.
    pub open spec fn top(self) -> TopOfBook {
        TopOfBook {
            bid: if self.bids.len() > 0 {
                Some(self.bids[0])
            } else {
                None
            },
            ask: if self.asks.len() > 0 {
                Some(self.asks[0])
            } else {
                None
            },
        }
    }
}

impl BookSnapshot {
    /// The best bid and ask.
    pub fn top(&self) -> (r: TopOfBook)
        ensures
            r == self@.top(),
    {
        TopOfBook {
            bid: if self.bids.len() > 0 {
                Some(self.bids[0])
            } else {
                None
            },
            ask: if self.asks.len() > 0 {
                Some(self.asks[0])
            } else {
                None
            },
        }
    }
}

/// The price and the size of a trade.
#[derive(Clone, Copy, PartialEq, Eq, Structural, Debug)]
pub struct Trade {
    /// The price.
    pub price: Amount,
    /// The shares.
    pub size: Amount,
}

impl View for Trade {
    type V = Trade;

    open spec fn view(&self) -> Trade {
        *self
    }
}

/// Why books are not to be relied on.
#[derive(Clone, Copy, PartialEq, Eq, Structural, Debug)]
pub enum BookUnreliableReason {
    /// The connection is down.
    Disconnected,
    /// Nothing has come for too long.
    Stale,
    /// A bid is above an ask.
    Crossed,
    /// The book's top is not the one that is told.
    TopDivergence,
}

/// A reason in words.
pub open spec fn reason_text(reason: BookUnreliableReason) -> Seq<char> {
    match reason {
        BookUnreliableReason::Disconnected => "disconnected"@,
        BookUnreliableReason::Stale => "stale book"@,
        BookUnreliableReason::Crossed => "crossed book"@,
        BookUnreliableReason::TopDivergence => "top divergence"@,
    }
}

/// A reason in words.
pub fn reason_label(reason: BookUnreliableReason) -> (r: &'static str)
    ensures
        r@ == reason_text(reason),
{
    match reason {
        BookUnreliableReason::Disconnected => "disconnected",
        BookUnreliableReason::Stale => "stale book",
        BookUnreliableReason::Crossed => "crossed book",
        BookUnreliableReason::TopDivergence => "top divergence",
    }
}

/// Whether a window's books can be relied on.
#[derive(Clone, Copy, PartialEq, Eq, Structural, Debug)]
pub enum BookHealth {
    /// Not any more.
    Unreliable {
        /// The window.
        window: WindowId,
        /// Why.
        reason: BookUnreliableReason,
    },
    /// Again.
    Recovered {
        /// The window.
        window: WindowId,
        /// For how long not, milliseconds.
        outage_ms: i64,
    },
}

/// A connection of the feed.
#[derive(Clone, Copy, PartialEq, Eq, Structural, Debug)]
pub struct ConnectionStatus {
    /// Its window.
    pub window: WindowId,
    /// Whether the window's books can be relied on.
    pub trusted: bool,
    /// Whether it is up.
    pub connected: bool,
    /// How often it came up.
    pub episodes: u64,
    /// How often it was dropped to come up anew.
    pub recycles: u64,
    /// How often a book had drifted.
    pub drift: u64,
    /// How often something odd came.
    pub anomalies: u64,
}

/// What the ladder view knows.
#[derive(Clone, Debug)]
pub struct Ladder {
    series: Series,
    depth: usize,
    current: Option<MarketInfo>,
    lifecycle: Option<WindowLifecycle>,
    next: Option<MarketInfo>,
    books: Table<Id, BookSnapshot>,
    trades: Table<Id, Trade>,
    tick: Option<Amount>,
    trusted: Option<bool>,
    events: EventPane,
    book_count: u64,
    trade_count: u64,
    health_count: u64,
    resolved_count: u64,
}

/// What a [`Ladder`] holds.
pub struct LadderView {
    pub series: Series,
    pub depth: nat,
    pub current: Option<MarketInfo>,
    pub lifecycle: Option<WindowLifecycle>,
    pub next: Option<MarketInfo>,
    pub books: Seq<(Seq<char>, BookView)>,
    pub trades: Seq<(Seq<char>, Trade)>,
    pub tick: Option<Amount>,
    pub trusted: Option<bool>,
    pub events: Seq<Seq<char>>,
    pub book_count: nat,
    pub trade_count: nat,
    pub health_count: nat,
    pub resolved_count: nat,
}

impl View for Ladder {
    type V = LadderView;

    closed spec fn view(&self) -> LadderView {
        LadderView {
            series: self.series,
            depth: self.depth as nat,
            current: self.current,
            lifecycle: self.lifecycle,
            next: self.next,
            books: self.books@,
            trades: self.trades@,
            tick: self.tick,
            trusted: self.trusted,
            events: self.events@,
            book_count: self.book_count as nat,
            trade_count: self.trade_count as nat,
            health_count: self.health_count as nat,
            resolved_count: self.resolved_count as nat,
        }
    }
}

/// The tokens of an optional market.
pub open spec fn tokens_of(market: Option<MarketInfo>) -> Seq<Seq<char>> {
    match market {
        Some(m) => seq![m.up_token@, m.down_token@],
        None => Seq::empty(),
    }
}

impl LadderView {
    /// With a line in the events pane.
    pub open spec fn noted(self, now_ms: i64, line: Seq<char>) -> LadderView {
        LadderView {
            events: screen::with_line(
                self.events,
                LADDER_PANE_LINES as nat,
                now_ms as int,
                line,
            ),
            ..self
        }
    }

    /// Whether a window is the current one.
    pub open spec fn is_current(self, window: WindowId) -> bool {
        self.current matches Some(m) && m.window == window
    }

    /// Without the books and trades of tokens that are neither in the current window nor in the
    /// next.
    pub open spec fn pruned(self) -> LadderView {
        let keep = tokens_of(self.current) + tokens_of(self.next);
        LadderView { books: kept(self.books, keep), trades: kept(self.trades, keep), ..self }
    }

    /// After a market event. Only the view's own series counts.
    pub open spec fn with_window(
        self,
        market: MarketInfo,
        lifecycle: WindowLifecycle,
        now_ms: i64,
    ) -> LadderView {
        if market.window.series != self.series {
            self
        } else {
            match lifecycle {
                WindowLifecycle::Discovered => if self.is_current(market.window) {
                    self
                } else {
                    LadderView { next: Some(market), ..self }
                },
                WindowLifecycle::Open => {
                    let noted = self.noted(now_ms, "OPEN "@ + market.event_slug@);
                    LadderView {
                        current: Some(market),
                        lifecycle: Some(lifecycle),
                        tick: Some(market.tick_size),
                        next: if self.next matches Some(n) && n.window == market.window {
                            None
                        } else {
                            self.next
                        },
                        ..noted
                    }.pruned()
                },
                WindowLifecycle::Closing | WindowLifecycle::Closed => if self.is_current(
                    market.window,
                ) {
                    LadderView { lifecycle: Some(lifecycle), ..self }
                } else {
                    self
                },
                WindowLifecycle::Resolved { outcome } => LadderView {
                    resolved_count: self.resolved_count + 1,
                    ..self.noted(
                        now_ms,
                        "RESOLVED "@ + market.event_slug@ + " -> "@ + outcome.text_spec(),
                    )
                },
            }
        }
    }

    /// After a change of a market's price step.
    pub open spec fn with_tick(self, condition: Seq<char>, tick: Amount, now_ms: i64) -> LadderView {
        if self.current matches Some(m) && m.condition_id@ == condition {
            LadderView {
                tick: Some(tick),
                ..self.noted(now_ms, "TICK SIZE -> "@ + tick.text_spec())
            }
        } else {
            self
        }
    }

    /// After a change in a window's books. Trust follows where it is the current window's, or
    /// where there is none.
    pub open spec fn with_health(self, health: BookHealth, now_ms: i64) -> LadderView {
        let counted = LadderView { health_count: self.health_count + 1, ..self };
        match health {
            BookHealth::Unreliable { window, reason } => LadderView {
                trusted: if self.current is None || self.is_current(window) {
                    Some(false)
                } else {
                    self.trusted
                },
                ..counted.noted(
                    now_ms,
                    "BOOKS UNRELIABLE "@ + window.text_spec() + ": "@ + reason_text(reason),
                )
            },
            BookHealth::Recovered { window, outage_ms } => LadderView {
                trusted: if self.current is None || self.is_current(window) {
                    Some(true)
                } else {
                    self.trusted
                },
                ..counted.noted(
                    now_ms,
                    "BOOKS RECOVERED "@ + window.text_spec() + " (outage "@
                        + calendar::countdown_spec(outage_ms as int) + ")"@,
                )
            },
        }
    }
}

/// The level as a line of the ladder.
pub open spec fn level_line(l: Level) -> Seq<char> {
    "  "@ + text::padded_left(l.price.text_spec(), 8, ' ') + "  "@ + text::padded_left(
        l.size.text_spec(),
        12,
        ' ',
    ) + "\n"@
}

/// The first `k` lines of the asks of a ladder that shows `n`: from the worst that is shown.
pub open spec fn ask_lines(asks: Seq<Level>, n: int, k: int) -> Seq<char>
    decreases k,
{
    if k <= 0 {
        Seq::empty()
    } else {
        ask_lines(asks, n, k - 1) + level_line(asks[n - k])
    }
}

/// The first `k` lines of the bids of a ladder: from the best.
pub open spec fn bid_lines(bids: Seq<Level>, k: int) -> Seq<char>
    decreases k,
{
    if k <= 0 {
        Seq::empty()
    } else {
        bid_lines(bids, k - 1) + level_line(bids[k - 1])
    }
}

/// How many of some levels are shown.
pub open spec fn shown(levels: Seq<Level>, depth: nat) -> int {
    if levels.len() <= depth {
        levels.len() as int
    } else {
        depth as int
    }
}

/// The line between asks and bids.
pub open spec fn spread_line(top: TopOfBook, last: Option<Trade>) -> Seq<char> {
    "  \u{2500}\u{2500} mid "@ + screen::figure_or_dash(top.mid_spec()) + " spread "@
        + screen::figure_or_dash(top.spread_spec()) + " last "@ + (match last {
        Some(t) => t.price.text_spec() + "\u{d7}"@ + t.size.text_spec(),
        None => "-"@,
    }) + " \u{2500}\u{2500}\n"@
}

/// One token's side of the view.
pub open spec fn side_text(v: LadderView, outcome: Outcome, token: Seq<char>) -> Seq<char> {
    let head = "["@ + outcome.text_spec() + "]  token \u{2026}"@ + screen::tail_spec(token, 8)
        + "\n"@;
    match lookup(v.books, token) {
        None => head + "  (no book yet)\n\n"@,
        Some(book) => head + ask_lines(
            book.asks,
            shown(book.asks, v.depth),
            shown(book.asks, v.depth),
        ) + spread_line(book.top(), lookup(v.trades, token)) + bid_lines(
            book.bids,
            shown(book.bids, v.depth),
        ) + "\n"@,
    }
}

/// Whether a window's books can be relied on: by its connection, or else by the last that was
/// told.
pub open spec fn trusted_of(
    statuses: Seq<ConnectionStatus>,
    window: WindowId,
    told: Option<bool>,
) -> Option<bool>
    decreases statuses.len(),
{
    if statuses.len() == 0 {
        told
    } else if statuses[0].window == window {
        Some(statuses[0].trusted)
    } else {
        trusted_of(statuses.drop_first(), window, told)
    }
}

/// Trust in a word.
pub open spec fn trust_text(trusted: Option<bool>) -> Seq<char> {
    match trusted {
        Some(true) => "TRUSTED"@,
        Some(false) => "UNRELIABLE"@,
        None => "warming up"@,
    }
}

/// The lines of the connections.
pub open spec fn connection_lines(statuses: Seq<ConnectionStatus>) -> Seq<char>
    decreases statuses.len(),
{
    if statuses.len() == 0 {
        Seq::empty()
    } else {
        connection_lines(statuses.drop_last()) + connection_line(statuses.last())
    }
}

/// The line of a connection.
pub open spec fn connection_line(s: ConnectionStatus) -> Seq<char> {
    "conn "@ + text::padded_right(s.window.text_spec(), 26) + " "@ + (if s.connected {
        "UP"@
    } else {
        "DOWN"@
    }) + "  episodes "@ + text::digits(s.episodes as nat) + "  recycles "@ + text::digits(
        s.recycles as nat,
    ) + "  drift "@ + text::digits(s.drift as nat) + "  anomalies "@ + text::digits(
        s.anomalies as nat,
    ) + "\n"@
}

/// The whole view.
pub open spec fn ladder_frame(v: LadderView, statuses: Seq<ConnectionStatus>, now_ms: i64) -> Seq<
    char,
> {
    match v.current {
        None => screen::clear_screen() + "ladder ["@ + v.series.key_spec()
            + "] waiting for the current window (discovery + scheduler warming up)\u{2026}\n"@,
        Some(market) => screen::clear_screen() + head_line(v.series, market) + phase_line(
            v,
            market,
            trusted_of(statuses, market.window, v.trusted),
            now_ms,
        ) + connection_lines(statuses) + "\n"@ + side_text(v, Outcome::Up, market.up_token@)
            + side_text(v, Outcome::Down, market.down_token@) + screen::pane_text(v.events),
    }
}

/// The first line of the view.
pub open spec fn head_line(series: Series, market: MarketInfo) -> Seq<char> {
    series.key_spec() + " "@ + market.window.text_spec() + "  polymarket.com/event/"@
        + market.event_slug@ + "\n"@
}

/// The second line of the view.
pub open spec fn phase_line(
    v: LadderView,
    market: MarketInfo,
    trusted: Option<bool>,
    now_ms: i64,
) -> Seq<char> {
    "phase "@ + text::padded_right(screen::phase_text(v.lifecycle), 10) + " closes in "@
        + text::padded_left(
        calendar::countdown_spec(screen::time_between(now_ms as int, market.close_ms as int)),
        8,
        ' ',
    ) + "  tick "@ + screen::amount_or_dash(v.tick) + "  books "@ + trust_text(trusted) + "\n"@
}

/// The summary of a run.
pub open spec fn run_summary(v: LadderView, ran_ms: i64) -> Seq<char> {
    "\nrun summary: "@ + text::digits(v.book_count) + " books, "@ + text::digits(v.trade_count)
        + " trades, "@ + text::digits(v.health_count) + " health transitions, "@ + text::digits(
        v.resolved_count,
    ) + " resolutions over "@ + calendar::countdown_spec(ran_ms as int)
}

/// Whether every book's top can be computed with.
pub open spec fn books_sane(books: Seq<(Seq<char>, BookView)>) -> bool {
    forall|i: int| 0 <= i < books.len() ==> (#[trigger] books[i]).1.top().sane()
}

impl Ladder {
    /// Whether nothing is held twice, and the pane has its size.
    pub closed spec fn wf(&self) -> bool {
        &&& unique_keys(self.books@)
        &&& unique_keys(self.trades@)
        &&& self.events.cap() == LADDER_PANE_LINES
        &&& self.depth >= 1
    }

    /// A view of a series that shows so many levels, at least one.
    pub fn new(series: Series, depth: usize) -> (r: Ladder)
        ensures
            r.wf(),
            r@ == (LadderView {
                series,
                depth: if depth >= 1 {
                    depth as nat
                } else {
                    1
                },
                current: None,
                lifecycle: None,
                next: None,
                books: Seq::empty(),
                trades: Seq::empty(),
                tick: None,
                trusted: None,
                events: Seq::empty(),
                book_count: 0,
                trade_count: 0,
                health_count: 0,
                resolved_count: 0,
            }),
    {
        Ladder {
            series,
            depth: if depth >= 1 {
                depth
            } else {
                1
            },
            current: None,
            lifecycle: None,
            next: None,
            books: Table::new(),
            trades: Table::new(),
            tick: None,
            trusted: None,
            events: EventPane::new(LADDER_PANE_LINES),
            book_count: 0,
            trade_count: 0,
            health_count: 0,
            resolved_count: 0,
        }
    }

    /// Whether a window is the current one.
    fn is_current(&self, window: WindowId) -> (r: bool)
        ensures
            r == self@.is_current(window),
    {
        match &self.current {
            Some(m) => m.window == window,
            None => false,
        }
    }

    /// Takes a market event in.
    pub fn on_window(&mut self, market: &MarketInfo, lifecycle: WindowLifecycle, now_ms: i64)
        requires
            old(self).wf(),
            old(self)@.resolved_count < u64::MAX,
        ensures
            final(self).wf(),
            final(self)@ == old(self)@.with_window(*market, lifecycle, now_ms),
    {
        if market.window.series != self.series {
            return;
        }
        match lifecycle {
            WindowLifecycle::Discovered => {
                if !self.is_current(market.window) {
                    self.next = Some(market.duplicate());
                }
            },
            WindowLifecycle::Open => {
                self.events.push(
                    now_ms,
                    text::join2("OPEN ", market.event_slug.as_str()).as_str(),
                );
                let announced = match &self.next {
                    Some(n) => n.window == market.window,
                    None => false,
                };
                self.current = Some(market.duplicate());
                self.lifecycle = Some(lifecycle);
                self.tick = Some(market.tick_size);
                if announced {
                    self.next = None;
                }
                self.prune();
            },
            WindowLifecycle::Closing | WindowLifecycle::Closed => {
                if self.is_current(market.window) {
                    self.lifecycle = Some(lifecycle);
                }
            },
            WindowLifecycle::Resolved { outcome } => {
                self.resolved_count = self.resolved_count + 1;
                let mut line = text::join2("RESOLVED ", market.event_slug.as_str());
                line.append(" -> ");
                line.append(outcome.text());
                self.events.push(now_ms, line.as_str());
            },
        }
    }

    /// Lets the books and trades of tokens go that are in neither window.
    fn prune(&mut self)
        requires
            old(self).wf(),
        ensures
            final(self).wf(),
            final(self)@ == old(self)@.pruned(),
    {
        let mut keep: Vec<Id> = Vec::new();
        if let Some(m) = &self.current {
            keep.push(m.up_token.duplicate());
            keep.push(m.down_token.duplicate());
        }
        if let Some(m) = &self.next {
            keep.push(m.up_token.duplicate());
            keep.push(m.down_token.duplicate());
        }
        assert(keep@.map_values(|k: Id| k@) =~= tokens_of(self@.current) + tokens_of(self@.next));
        self.books.retain_keys(&keep);
        self.trades.retain_keys(&keep);
    }

    /// Takes a book in.
    pub fn on_book(&mut self, token: &Id, book: BookSnapshot)
        requires
            old(self).wf(),
            old(self)@.book_count < u64::MAX,
        ensures
            final(self).wf(),
            final(self)@ == (LadderView {
                books: put(old(self)@.books, token@, book@),
                book_count: old(self)@.book_count + 1,
                ..old(self)@
            }),
    {
        self.book_count = self.book_count + 1;
        self.books.insert(token.duplicate(), book);
    }

    /// Takes a trade in.
    pub fn on_trade(&mut self, token: &Id, trade: Trade)
        requires
            old(self).wf(),
            old(self)@.trade_count < u64::MAX,
        ensures
            final(self).wf(),
            final(self)@ == (LadderView {
                trades: put(old(self)@.trades, token@, trade),
                trade_count: old(self)@.trade_count + 1,
                ..old(self)@
            }),
    {
        self.trade_count = self.trade_count + 1;
        self.trades.insert(token.duplicate(), trade);
    }

    /// Takes a change of a market's price step in.
    pub fn on_tick_size(&mut self, condition: &Id, tick: Amount, now_ms: i64)
        requires
            old(self).wf(),
        ensures
            final(self).wf(),
            final(self)@ == old(self)@.with_tick(condition@, tick, now_ms),
    {
        let ours = match &self.current {
            Some(m) => text::same(m.condition_id.text.as_str(), condition.text.as_str()),
            None => false,
        };
        if ours {
            self.tick = Some(tick);
            self.events.push(
                now_ms,
                text::join2("TICK SIZE -> ", tick.text().as_str()).as_str(),
            );
        }
    }

    /// Takes a change in a window's books in.
    pub fn on_health(&mut self, health: BookHealth, now_ms: i64)
        requires
            old(self).wf(),
            old(self)@.health_count < u64::MAX,
        ensures
            final(self).wf(),
            final(self)@ == old(self)@.with_health(health, now_ms),
    {
        self.health_count = self.health_count + 1;
        match health {
            BookHealth::Unreliable { window, reason } => {
                if self.current.is_none() || self.is_current(window) {
                    self.trusted = Some(false);
                }
                let mut line = text::join2("BOOKS UNRELIABLE ", window.text().as_str());
                line.append(": ");
                line.append(reason_label(reason));
                self.events.push(now_ms, line.as_str());
            },
            BookHealth::Recovered { window, outage_ms } => {
                if self.current.is_none() || self.is_current(window) {
                    self.trusted = Some(true);
                }
                let mut line = text::join2("BOOKS RECOVERED ", window.text().as_str());
                line.append(" (outage ");
                line.append(calendar::fmt_countdown(outage_ms).as_str());
                line.append(")");
                self.events.push(now_ms, line.as_str());
            },
        }
    }

    /// The view as text.
    pub fn draw(&self, statuses: &Vec<ConnectionStatus>, now_ms: i64) -> (r: String)
        requires
            self.wf(),
            books_sane(self@.books),
        ensures
            r@ == ladder_frame(self@, statuses@, now_ms),
    {
        let mut frame = "\u{1b}[H\u{1b}[J".to_owned();
        match &self.current {
            None => {
                frame.append("ladder [");
                frame.append(self.series.key());
                frame.append(
                    "] waiting for the current window (discovery + scheduler warming up)\u{2026}\n",
                );
            },
            Some(market) => {
                frame.append(head(&self.series, market).as_str());
                let trusted = trust(statuses, market.window, self.trusted);
                frame.append(self.phase(market, trusted, now_ms).as_str());
                frame.append(connections(statuses).as_str());
                frame.append("\n");
                frame.append(self.side(Outcome::Up, &market.up_token).as_str());
                frame.append(self.side(Outcome::Down, &market.down_token).as_str());
                frame.append(self.events.text().as_str());
            },
        }
        frame
    }

    /// The second line of the view.
    fn phase(&self, market: &MarketInfo, trusted: Option<bool>, now_ms: i64) -> (r: String)
        ensures
            r@ == phase_line(self@, *market, trusted, now_ms),
    {
        let mut out = "phase ".to_owned();
        out.append(text::pad_right(screen::phase(self.lifecycle).as_str(), 10).as_str());
        out.append(" closes in ");
        out.append(
            text::pad_left(
                calendar::fmt_countdown(screen::ms_between(now_ms, market.close_ms)).as_str(),
                8,
                ' ',
            ).as_str(),
        );
        out.append("  tick ");
        out.append(screen::or_dash(self.tick).as_str());
        out.append("  books ");
        out.append(
            match trusted {
                Some(true) => "TRUSTED",
                Some(false) => "UNRELIABLE",
                None => "warming up",
            },
        );
        out.append("\n");
        out
    }

    /// One token's side of the view.
    fn side(&self, outcome: Outcome, token: &Id) -> (r: String)
        requires
            self.wf(),
            books_sane(self@.books),
        ensures
            r@ == side_text(self@, outcome, token@),
    {
        let mut out = "[".to_owned();
        out.append(outcome.text());
        out.append("]  token \u{2026}");
        out.append(screen::tail(token.text.as_str(), 8).as_str());
        out.append("\n");
        match self.books.get(token) {
            None => {
                out.append("  (no book yet)\n\n");
            },
            Some(book) => {
                proof {
                    let p = crate::table::place(self@.books, token@);
                    assert(self@.books[p].1.top().sane());
                }
                let last = match self.trades.get(token) {
                    Some(t) => Some(*t),
                    None => None,
                };
                out.append(asks(&book.asks, self.depth).as_str());
                out.append(spread(&book.top(), last).as_str());
                out.append(bids(&book.bids, self.depth).as_str());
                out.append("\n");
            },
        }
        out
    }

    /// The summary of a run of so many milliseconds.
    pub fn summary(&self, ran_ms: i64) -> (r: String)
        ensures
            r@ == run_summary(self@, ran_ms),
    {
        let mut out = "\nrun summary: ".to_owned();
        out.append(text::u64_text(self.book_count).as_str());
        out.append(" books, ");
        out.append(text::u64_text(self.trade_count).as_str());
        out.append(" trades, ");
        out.append(text::u64_text(self.health_count).as_str());
        out.append(" health transitions, ");
        out.append(text::u64_text(self.resolved_count).as_str());
        out.append(" resolutions over ");
        out.append(calendar::fmt_countdown(ran_ms).as_str());
        out
    }
}

/// The first line of the view.
fn head(series: &Series, market: &MarketInfo) -> (r: String)
    ensures
        r@ == head_line(*series, *market),
{
    let mut out = series.key().to_owned();
    out.append(" ");
    out.append(market.window.text().as_str());
    out.append("  polymarket.com/event/");
    out.append(market.event_slug.as_str());
    out.append("\n");
    out
}

/// Whether a window's books can be relied on.
fn trust(statuses: &Vec<ConnectionStatus>, window: WindowId, told: Option<bool>) -> (r: Option<
    bool,
>)
    ensures
        r == trusted_of(statuses@, window, told),
{
    let mut i: usize = 0;
    assert(statuses@.subrange(0, statuses@.len() as int) =~= statuses@);
    while i < statuses.len()
        invariant
            i <= statuses@.len(),
            trusted_of(statuses@, window, told) == trusted_of(
                statuses@.subrange(i as int, statuses@.len() as int),
                window,
                told,
            ),
        decreases statuses.len() - i,
    {
        let ghost rest = statuses@.subrange(i as int, statuses@.len() as int);
        assert(rest[0] == statuses@[i as int]);
        assert(rest.drop_first() =~= statuses@.subrange(i + 1, statuses@.len() as int));
        if statuses[i].window == window {
            return Some(statuses[i].trusted);
        }
        i = i + 1;
    }
    told
}

/// The lines of the connections.
fn connections(statuses: &Vec<ConnectionStatus>) -> (r: String)
    ensures
        r@ == connection_lines(statuses@),
{
    let mut out = String::new();
    let mut i: usize = 0;
    assert(statuses@.subrange(0, 0) =~= Seq::empty());
    while i < statuses.len()
        invariant
            i <= statuses@.len(),
            out@ == connection_lines(statuses@.subrange(0, i as int)),
        decreases statuses.len() - i,
    {
        proof {
            let part = statuses@.subrange(0, i + 1);
            assert(part.drop_last() =~= statuses@.subrange(0, i as int));
            assert(part.last() == statuses@[i as int]);
        }
        out.append(connection(&statuses[i]).as_str());
        i = i + 1;
    }
    assert(statuses@.subrange(0, i as int) =~= statuses@);
    out
}

/// The line of a connection.
fn connection(s: &ConnectionStatus) -> (r: String)
    ensures
        r@ == connection_line(*s),
{
    let mut out = "conn ".to_owned();
    out.append(text::pad_right(s.window.text().as_str(), 26).as_str());
    out.append(" ");
    out.append(
        if s.connected {
            "UP"
        } else {
            "DOWN"
        },
    );
    out.append("  episodes ");
    out.append(text::u64_text(s.episodes).as_str());
    out.append("  recycles ");
    out.append(text::u64_text(s.recycles).as_str());
    out.append("  drift ");
    out.append(text::u64_text(s.drift).as_str());
    out.append("  anomalies ");
    out.append(text::u64_text(s.anomalies).as_str());
    out.append("\n");
    out
}

/// The level as a line of the ladder.
fn level(l: &Level) -> (r: String)
    ensures
        r@ == level_line(*l),
{
    let mut out = "  ".to_owned();
    out.append(text::pad_left(l.price.text().as_str(), 8, ' ').as_str());
    out.append("  ");
    out.append(text::pad_left(l.size.text().as_str(), 12, ' ').as_str());
    out.append("\n");
    out
}

/// The asks that are shown, the best last.
fn asks(levels: &Vec<Level>, depth: usize) -> (r: String)
    ensures
        ({
            let n = shown(levels@, depth as nat);
            r@ == ask_lines(levels@, n, n)
        }),
{
    let n: usize = if levels.len() <= depth {
        levels.len()
    } else {
        depth
    };
    let mut out = String::new();
    let mut k: usize = 0;
    while k < n
        invariant
            k <= n <= levels@.len(),
            out@ == ask_lines(levels@, n as int, k as int),
        decreases n - k,
    {
        k = k + 1;
        out.append(level(&levels[n - k]).as_str());
    }
    out
}

/// The bids that are shown, the best first.
fn bids(levels: &Vec<Level>, depth: usize) -> (r: String)
    ensures
        r@ == bid_lines(levels@, shown(levels@, depth as nat)),
{
    let n: usize = if levels.len() <= depth {
        levels.len()
    } else {
        depth
    };
    let mut out = String::new();
    let mut k: usize = 0;
    while k < n
        invariant
            k <= n <= levels@.len(),
            out@ == bid_lines(levels@, k as int),
        decreases n - k,
    {
        out.append(level(&levels[k]).as_str());
        k = k + 1;
    }
    out
}

/// The line between asks and bids.
fn spread(top: &TopOfBook, last: Option<Trade>) -> (r: String)
    requires
        top.sane(),
    ensures
        r@ == spread_line(*top, last),
{
    let traded = match last {
        Some(t) => text::join3(t.price.text().as_str(), "\u{d7}", t.size.text().as_str()),
        None => "-".to_owned(),
    };
    let mut out = "  \u{2500}\u{2500} mid ".to_owned();
    out.append(screen::figure_text(top.mid()).as_str());
    out.append(" spread ");
    out.append(screen::figure_text(top.spread()).as_str());
    out.append(" last ");
    out.append(traded.as_str());
    out.append(" \u{2500}\u{2500}\n");
    out
}

/// Once a window opens, only tokens of the current window and the next have books or trades.
pub proof fn law_old_tokens_are_dropped(v: LadderView, token: Seq<char>)
    requires
        !(tokens_of(v.current) + tokens_of(v.next)).contains(token),
    ensures
        lookup(v.pruned().books, token) is None,
        lookup(v.pruned().trades, token) is None,
{
    let keep = tokens_of(v.current) + tokens_of(v.next);
    crate::table::lemma_kept(v.books, keep);
    crate::table::lemma_kept(v.trades, keep);
}

/// When a forced recycle is due: so many seconds after the start, at the latest at the end of
/// the clock.
pub open spec fn recycle_due(started_ms: i64, after_secs: u64) -> int {
    if started_ms + after_secs * 1000 > i64::MAX {
        i64::MAX as int
    } else {
        started_ms + after_secs * 1000
    }
}

/// A recycle of the current window's connection that is forced once.
#[derive(Clone, Copy, PartialEq, Eq, Structural, Debug)]
pub struct ForcedRecycle {
    /// When it is due, Unix milliseconds; none where it was not asked for or has been sent.
    pub pending_ms: Option<i64>,
}

impl ForcedRecycle {
    /// A recycle so many seconds after the start, where one is asked for.
    pub fn new(started_ms: i64, after_secs: Option<u64>) -> (r: ForcedRecycle)
        ensures
            match after_secs {
                Some(secs) => r.pending_ms is Some && r.pending_ms->0 == recycle_due(
                    started_ms,
                    secs,
                ),
                None => r.pending_ms is None,
            },
    {
        match after_secs {
            Some(secs) => {
                let at: i128 = started_ms as i128 + secs as i128 * 1000;
                ForcedRecycle {
                    pending_ms: Some(
                        if at > i64::MAX as i128 {
                            i64::MAX
                        } else {
                            at as i64
                        },
                    ),
                }
            },
            None => ForcedRecycle { pending_ms: None },
        }
    }

    /// Before a frame is drawn: the window whose connection is now to be recycled, where it is
    /// time and there is one. It is noted in the view, and sent once.
    pub fn on_render(&mut self, ladder: &mut Ladder, now_ms: i64) -> (r: Option<WindowId>)
        requires
            old(ladder).wf(),
        ensures
            final(ladder).wf(),
            match (old(self).pending_ms, old(ladder)@.current) {
                (Some(at), Some(market)) if now_ms >= at => {
                    &&& r == Some(market.window)
                    &&& final(self).pending_ms is None
                    &&& final(ladder)@ == old(ladder)@.noted(
                        now_ms,
                        "FORCED RECYCLE sent (--recycle-after)"@,
                    )
                },
                _ => {
                    &&& r is None
                    &&& *final(self) == *old(self)
                    &&& final(ladder)@ == old(ladder)@
                },
            },
    {
        let due = match self.pending_ms {
            Some(at) => now_ms >= at,
            None => false,
        };
        if !due {
            return None;
        }
        let window = match &ladder.current {
            Some(m) => m.window,
            None => {
                return None;
            },
        };
        ladder.events.push(now_ms, "FORCED RECYCLE sent (--recycle-after)");
        self.pending_ms = None;
        Some(window)
    }
}

/// The top of a book is the first of its bids and the first of its asks, each where there is one.
pub proof fn law_top_is_the_first_of_each_side(b: BookView)
    ensures
        b.top().bid is Some <==> b.bids.len() > 0,
        b.top().ask is Some <==> b.asks.len() > 0,
        b.bids.len() > 0 ==> b.top().bid == Some(b.bids[0]),
        b.asks.len() > 0 ==> b.top().ask == Some(b.asks[0]),
{
}

/// The books and trades of the current window's tokens, and of the next window's, outlast an
/// opening.
pub proof fn law_live_tokens_are_kept(v: LadderView, m: MarketInfo, token: Seq<char>)
    requires
        v.current == Some(m) || v.next == Some(m),
        token == m.up_token@ || token == m.down_token@,
        unique_keys(v.books),
        unique_keys(v.trades),
    ensures
        lookup(v.pruned().books, token) == lookup(v.books, token),
        lookup(v.pruned().trades, token) == lookup(v.trades, token),
{
    let keep = tokens_of(v.current) + tokens_of(v.next);
    let own = tokens_of(Some(m));
    assert(own[0] == m.up_token@ && own[1] == m.down_token@);
    let at: int = if token == m.up_token@ {
        0
    } else {
        1
    };
    if v.current == Some(m) {
        assert(keep[at] == token);
    } else {
        assert(keep[tokens_of(v.current).len() + at] == token);
    }
    crate::table::law_kept_entries_are_found(v.books, keep, token);
    crate::table::law_kept_entries_are_found(v.trades, keep, token);
}

/// A window of the series that opens is the current one and brings its tick; one that is
/// discovered is the next, unless it is the current one; one that is closing or closed changes the
/// phase where it is the current one; one that is resolved is counted. No other series' window
/// changes anything.
pub proof fn law_ladder_follows_its_series(
    v: LadderView,
    market: MarketInfo,
    lifecycle: WindowLifecycle,
    now_ms: i64,
)
    ensures
        ({
            let after = v.with_window(market, lifecycle, now_ms);
            let own = market.window.series == v.series;
            let ours = v.current matches Some(m) && m.window == market.window;
            &&& !own ==> after == v
            &&& own && lifecycle is Open ==> after.current == Some(market) && after.lifecycle
                == Some(lifecycle) && after.tick == Some(market.tick_size) && !(
            after.next matches Some(n) && n.window == market.window) && (!(
            v.next matches Some(n) && n.window == market.window) ==> after.next == v.next)
            &&& own && lifecycle is Discovered ==> after == (LadderView {
                next: if ours {
                    v.next
                } else {
                    Some(market)
                },
                ..v
            })
            &&& own && (lifecycle is Closing || lifecycle is Closed) ==> after == (LadderView {
                lifecycle: if ours {
                    Some(lifecycle)
                } else {
                    v.lifecycle
                },
                ..v
            })
            &&& own && lifecycle is Resolved ==> after.resolved_count == v.resolved_count + 1
                && after.current == v.current && after.next == v.next && after.books == v.books
            &&& !(lifecycle is Resolved) ==> after.resolved_count == v.resolved_count
            &&& after.trusted == v.trusted && after.book_count == v.book_count && after.trade_count
                == v.trade_count && after.health_count == v.health_count
        }),
{
}

/// A tick size is taken in where it is of the current window's market, and told then.
pub proof fn law_tick_is_of_the_current_market(
    v: LadderView,
    condition: Seq<char>,
    tick: Amount,
    now_ms: i64,
)
    ensures
        (v.current matches Some(m) && m.condition_id@ == condition) ==> v.with_tick(
            condition,
            tick,
            now_ms,
        ).tick == Some(tick),
        !(v.current matches Some(m) && m.condition_id@ == condition) ==> v.with_tick(
            condition,
            tick,
            now_ms,
        ) == v,
{
}

/// A change in the books' health counts, and says of the books that they can be trusted or not
/// where it is of the current window or there is none yet.
pub proof fn law_health_is_of_the_current_window(v: LadderView, health: BookHealth, now_ms: i64)
    ensures
        ({
            let after = v.with_health(health, now_ms);
            let window = match health {
                BookHealth::Unreliable { window, .. } => window,
                BookHealth::Recovered { window, .. } => window,
            };
            let concerns = v.current is None || v.current->0.window == window;
            &&& after.health_count == v.health_count + 1
            &&& concerns ==> after.trusted == Some(health is Recovered)
            &&& !concerns ==> after.trusted == v.trusted
            &&& after.current == v.current && after.books == v.books && after.resolved_count
                == v.resolved_count
        }),
{
}

/// Of each side as many levels are shown as there are, and no more than the depth.
pub proof fn law_shown_to_the_depth(levels: Seq<Level>, depth: nat)
    ensures
        shown(levels, depth) <= levels.len(),
        shown(levels, depth) <= depth,
        shown(levels, depth) == levels.len() || shown(levels, depth) == depth,
{
}

/// Bids run down from the best and asks run down to it: the best bid stands first and the best
/// ask last, with the rest of its side on the other side of it.
pub proof fn law_best_levels_stand_at_the_spread(levels: Seq<Level>, n: int)
    requires
        1 <= n <= levels.len(),
    ensures
        bid_lines(levels, n) == level_line(levels[0]) + bid_lines(levels.drop_first(), n - 1),
        ask_lines(levels, n, n) == ask_lines(levels.drop_first(), n - 1, n - 1) + level_line(
            levels[0],
        ),
        bid_lines(levels, 0).len() == 0,
        ask_lines(levels, n, 0).len() == 0,
{
    lemma_bids_from_the_first(levels, n);
    lemma_asks_shift(levels, n, n - 1);
}

proof fn lemma_bids_from_the_first(levels: Seq<Level>, n: int)
    requires
        1 <= n <= levels.len(),
    ensures
        bid_lines(levels, n) == level_line(levels[0]) + bid_lines(levels.drop_first(), n - 1),
    decreases n,
{
    let rest = levels.drop_first();
    if n > 1 {
        lemma_bids_from_the_first(levels, n - 1);
        assert(rest[n - 2] == levels[n - 1]);
        assert(bid_lines(rest, n - 1) == bid_lines(rest, n - 2) + level_line(rest[n - 2]));
    } else {
        assert(bid_lines(levels, 0) == Seq::<char>::empty());
        assert(bid_lines(rest, 0) == Seq::<char>::empty());
    }
}

proof fn lemma_asks_shift(levels: Seq<Level>, n: int, k: int)
    requires
        0 <= k < n <= levels.len(),
    ensures
        ask_lines(levels, n, k) == ask_lines(levels.drop_first(), n - 1, k),
    decreases k,
{
    if k > 0 {
        lemma_asks_shift(levels, n, k - 1);
        assert(levels.drop_first()[n - 1 - k] == levels[n - k]);
    }
}

/// Whether the books can be trusted is as the first connection of the window says, and as was told
/// where no connection is the window's.
pub proof fn law_own_connection_says_whether_to_trust(
    statuses: Seq<ConnectionStatus>,
    window: WindowId,
    told: Option<bool>,
    i: int,
)
    ensures
        0 <= i < statuses.len() && statuses[i].window == window && (forall|j: int|
            0 <= j < i ==> (#[trigger] statuses[j]).window != window) ==> trusted_of(
            statuses,
            window,
            told,
        ) == Some(statuses[i].trusted),
        (forall|j: int| 0 <= j < statuses.len() ==> (#[trigger] statuses[j]).window != window)
            ==> trusted_of(statuses, window, told) == told,
    decreases statuses.len(),
{
    if statuses.len() > 0 {
        let rest = statuses.drop_first();
        law_own_connection_says_whether_to_trust(rest, window, told, i - 1);
        assert(forall|j: int| 0 <= j < rest.len() ==> #[trigger] rest[j] == statuses[j + 1]);
        if i > 0 && (forall|j: int| 0 <= j < i ==> (#[trigger] statuses[j]).window != window) {
            assert(statuses[0].window != window);
            assert forall|j: int| 0 <= j < i - 1 && j < rest.len() implies (
            #[trigger] rest[j]).window != window by {
                assert(statuses[j + 1].window != window);
            }
        }
        if forall|j: int| 0 <= j < statuses.len() ==> (#[trigger] statuses[j]).window != window {
            assert(statuses[0].window != window);
            assert forall|j: int| 0 <= j < rest.len() implies (#[trigger] rest[j]).window
                != window by {
                assert(statuses[j + 1].window != window);
            }
        }
    }
}

/// A forced recycle is due its seconds after the start, to the millisecond, as far as the clock
/// goes.
pub proof fn law_recycle_is_due_in_its_seconds(started_ms: i64, after_secs: u64)
    ensures
        recycle_due(started_ms, after_secs) <= i64::MAX,
        recycle_due(started_ms, after_secs) < i64::MAX ==> (recycle_due(started_ms, after_secs)
            - started_ms) == 1_000 * after_secs,
        started_ms + 1_000 * after_secs <= i64::MAX ==> recycle_due(started_ms, after_secs)
            == started_ms + 1_000 * after_secs,
{
}

/// The pane holds the newest eight lines.
pub proof fn law_pane_holds_eight_lines(v: LadderView, now_ms: i64, line: Seq<char>)
    requires
        v.events.len() <= 8,
    ensures
        v.noted(now_ms, line).events.len() <= 8,
        v.events.len() < 8 ==> v.noted(now_ms, line).events.len() == v.events.len() + 1,
        v.noted(now_ms, line).events.last() == calendar::fmt_ts_spec(now_ms as int) + " "@ + line,
{
}

/// Why books are unreliable is known by its words.
pub proof fn law_reason_is_known_by_its_words(reason: BookUnreliableReason)
    ensures
        reason_text(reason) == "disconnected"@ <==> reason is Disconnected,
        reason_text(reason) == "stale book"@ <==> reason is Stale,
        reason_text(reason) == "crossed book"@ <==> reason is Crossed,
        reason_text(reason) == "top divergence"@ <==> reason is TopDivergence,
{
    reveal_strlit("disconnected");
    reveal_strlit("stale book");
    reveal_strlit("crossed book");
    reveal_strlit("top divergence");
    assert("disconnected"@.len() != "stale book"@.len());
    assert("disconnected"@[0] != "crossed book"@[0]);
    assert("disconnected"@.len() != "top divergence"@.len());
    assert("stale book"@.len() != "crossed book"@.len());
    assert("stale book"@.len() != "top divergence"@.len());
    assert("crossed book"@.len() != "top divergence"@.len());
}

/// Whether books can be trusted is known by its words.
pub proof fn law_trust_is_known_by_its_words(trusted: Option<bool>)
    ensures
        trust_text(trusted) == "TRUSTED"@ <==> trusted == Some(true),
        trust_text(trusted) == "UNRELIABLE"@ <==> trusted == Some(false),
        trust_text(trusted) == "warming up"@ <==> trusted is None,
{
    reveal_strlit("TRUSTED");
    reveal_strlit("UNRELIABLE");
    reveal_strlit("warming up");
    assert("TRUSTED"@.len() != "UNRELIABLE"@.len());
    assert("TRUSTED"@.len() != "warming up"@.len());
    assert("UNRELIABLE"@[0] != "warming up"@[0]);
}

} // verus!
