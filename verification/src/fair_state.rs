//! The fair-value run: one series' windows, their books and strikes, and what is shown and
//! recorded of them. Readings of the model are carried as order keys.

use vstd::prelude::*;
use vstd::string::*;

use crate::calendar;
use crate::decimal::{Amount, Figure};
use crate::fair::{
    anchor_label, anchor_text, health_label, health_text, health_transition_line, quality_label,
    quality_text, reason_label, reason_text, rule_label, rule_text, transition_text, AnchorSource,
    HealthTransition, Matched, ModelHealth, ModelHealthReason, StrikeQuality, StrikeRule, Verdict,
};
use crate::feed::{shown_or_dash, text_or_dash};
use crate::latency::{signed_text, with_sign};
use crate::screen;
use crate::screen::EventPane;
use crate::table::{cut, holds_key, lookup, put, unique_keys, Table};
use crate::text;
use crate::types::{Asset, Id, MarketInfo, Series, TopOfBook, WindowId, WindowLifecycle};

verus! {

/// Lines of the events pane.
pub const FAIR_PANE_LINES: usize = 8;

/// The least time between two recorded snapshots, milliseconds.
pub const SNAPSHOT_INTERVAL_MS: i64 = 1_000;

/// How long after its close a window that was never resolved is checked, milliseconds.
pub const VERIFY_FALLBACK_MS: i64 = 90_000;

/// How long after its close a window is let go, milliseconds.
pub const PRUNE_AFTER_CLOSE_MS: i64 = 200_000;

/// Where a window's strike stands.
#[derive(Clone, Copy, PartialEq, Eq, Structural, Debug)]
pub struct StrikeEstimate {
    /// The strike, where there is one.
    pub k: Option<i64>,
    /// The rule that it goes by.
    pub rule: StrikeRule,
    /// How good it is.
    pub quality: StrikeQuality,
    /// Whether it is settled.
    pub frozen: bool,
    /// The last print before the opening: its offset, milliseconds.
    pub before_ms: Option<i64>,
    /// The first print after the opening: its offset, milliseconds.
    pub after_ms: Option<i64>,
}

/// A reading of the model.
#[derive(Clone, Copy, PartialEq, Eq, Structural, Debug)]
pub struct FairReading {
    /// The window.
    pub window: WindowId,
    /// The time left, seconds.
    pub tau_secs: i64,
    /// The strike.
    pub strike: StrikeEstimate,
    /// The Chainlink price.
    pub chainlink_price: Option<i64>,
    /// Its age, milliseconds.
    pub chainlink_age_ms: Option<i64>,
    /// The fast price.
    pub fast_price: Option<i64>,
    /// Its age, milliseconds.
    pub fast_age_ms: Option<i64>,
    /// The price that the model goes by.
    pub anchor_price: Option<i64>,
    /// Where that price comes from.
    pub anchor: Option<AnchorSource>,
    /// How far the sources are apart on the whole, basis points.
    pub basis_bps: Option<i64>,
    /// How far they are apart now, basis points.
    pub divergence_bps: Option<i64>,
    /// The volatility over a second.
    pub sigma_1s: Option<i64>,
    /// The volatility over the time left.
    pub sigma_tau: Option<i64>,
    /// The distance from the strike in volatilities.
    pub z: Option<i64>,
    /// The Up probability.
    pub p_up: Option<i64>,
    /// Whether there is enough to publish.
    pub publishable: bool,
    /// How far it can be relied on.
    pub health: ModelHealth,
    /// Why.
    pub reason: ModelHealthReason,
}

impl View for FairReading {
    type V = FairReading;

    open spec fn view(&self) -> FairReading {
        *self
    }
}

/// A change in a window's strike.
#[derive(Clone, Copy, PartialEq, Eq, Structural, Debug)]
pub struct StrikeEvent {
    /// The window.
    pub window: WindowId,
    /// Whether a better print came after the strike was settled.
    pub revision: bool,
}

/// The record of a window's outcome.
#[derive(Clone, Debug)]
pub struct OutcomeRecord {
    /// When, Unix milliseconds.
    pub ts: i64,
    /// The window.
    pub window: String,
    /// The event's slug.
    pub slug: String,
    /// The outcome.
    pub outcome: String,
}

/// A window whose strike is to be checked.
#[derive(Clone, Debug)]
pub struct VerifyJob {
    /// The window.
    pub window: WindowId,
    /// The event's slug.
    pub slug: String,
}

/// What a market event asks for.
#[derive(Clone, Debug)]
pub struct WindowEffects {
    /// An outcome to record.
    pub outcome: Option<OutcomeRecord>,
    /// A strike to check.
    pub verify: Option<VerifyJob>,
}

/// What a check of a strike came to.
#[derive(Clone, Debug)]
pub struct VerifyResult {
    /// The event's slug.
    pub slug: String,
    /// Which of our candidates the venue's strike is.
    pub matched: Matched,
    /// How ours stands against it.
    pub verdict: Verdict,
    /// The venue's strike, as it is shown, where it was published.
    pub price_to_beat: Option<String>,
}

/// The record of a reading.
#[derive(Clone, Debug)]
pub struct SnapshotRecord {
    /// When, Unix milliseconds.
    pub ts: i64,
    /// The window.
    pub window: String,
    /// The event's slug.
    pub slug: String,
    /// The reading.
    pub fair: FairReading,
    /// The strike's quality.
    pub strike_quality: &'static str,
    /// Where the price comes from.
    pub anchor: &'static str,
    /// The Up token's best bid.
    pub book_bid_up: Option<Amount>,
    /// The Up token's best ask.
    pub book_ask_up: Option<Amount>,
    /// The middle between them.
    pub book_mid_up: Option<Figure>,
    /// Whether model and book have been apart for too long.
    pub sanity_breach: bool,
    /// How far the reading can be relied on.
    pub health: &'static str,
    /// Why.
    pub reason: &'static str,
}

/// The numbers of a reading as they are shown.
#[derive(Clone, Debug)]
pub struct FairShown {
    /// The strike.
    pub k: Option<String>,
    /// The Chainlink price.
    pub chainlink: Option<String>,
    /// Its age.
    pub chainlink_age: Option<String>,
    /// The fast price.
    pub fast: Option<String>,
    /// Its age.
    pub fast_age: Option<String>,
    /// The price that the model goes by.
    pub anchor_price: Option<String>,
    /// How far the sources are apart on the whole.
    pub basis: Option<String>,
    /// How far they are apart now.
    pub divergence: Option<String>,
    /// The volatility over a second.
    pub sigma_1s: Option<String>,
    /// The volatility over the time left.
    pub sigma_tau: Option<String>,
    /// The distance from the strike in volatilities.
    pub z: Option<String>,
    /// The Up probability.
    pub p_up: Option<String>,
    /// The middle of the Up token's book.
    pub mid: Option<String>,
    /// How far probability and middle are apart.
    pub gap: Option<String>,
}

/// A run over one series.
#[derive(Clone, Debug)]
pub struct FairState {
    series: Series,
    sanity_dur_ms: i64,
    priced: Table<WindowId, MarketInfo>,
    markets: Table<WindowId, MarketInfo>,
    books: Table<Id, TopOfBook>,
    current: Option<WindowId>,
    lifecycle: Option<WindowLifecycle>,
    next: Option<WindowId>,
    last_fair: Option<FairReading>,
    sanity_since: Option<i64>,
    sanity_breached: bool,
    last_snapshot_ms: Option<i64>,
    triggered: Vec<WindowId>,
    pending: Vec<HealthTransition>,
    events: EventPane,
    ticks: u64,
    published: u64,
    dropped: u64,
    journaled: u64,
    resolved: u64,
    verify_exact: u64,
    verify_mismatch: u64,
    verify_unavailable: u64,
}

/// A run as plain values.
pub struct FairView {
    pub series: Series,
    pub sanity_dur_ms: i64,
    pub priced: Seq<(WindowId, MarketInfo)>,
    pub markets: Seq<(WindowId, MarketInfo)>,
    pub books: Seq<(Seq<char>, TopOfBook)>,
    pub current: Option<WindowId>,
    pub lifecycle: Option<WindowLifecycle>,
    pub next: Option<WindowId>,
    pub last_fair: Option<FairReading>,
    pub sanity_since: Option<i64>,
    pub sanity_breached: bool,
    pub last_snapshot_ms: Option<i64>,
    pub triggered: Seq<WindowId>,
    pub pending: Seq<HealthTransition>,
    pub events: Seq<Seq<char>>,
    pub ticks: nat,
    pub published: nat,
    pub dropped: nat,
    pub journaled: nat,
    pub resolved: nat,
    pub verify_exact: nat,
    pub verify_mismatch: nat,
    pub verify_unavailable: nat,
}

impl View for FairState {
    type V = FairView;

    closed spec fn view(&self) -> FairView {
        FairView {
            series: self.series,
            sanity_dur_ms: self.sanity_dur_ms,
            priced: self.priced@,
            markets: self.markets@,
            books: self.books@,
            current: self.current,
            lifecycle: self.lifecycle,
            next: self.next,
            last_fair: self.last_fair,
            sanity_since: self.sanity_since,
            sanity_breached: self.sanity_breached,
            last_snapshot_ms: self.last_snapshot_ms,
            triggered: self.triggered@,
            pending: self.pending@,
            events: self.events@,
            ticks: self.ticks as nat,
            published: self.published as nat,
            dropped: self.dropped as nat,
            journaled: self.journaled as nat,
            resolved: self.resolved as nat,
            verify_exact: self.verify_exact as nat,
            verify_mismatch: self.verify_mismatch as nat,
            verify_unavailable: self.verify_unavailable as nat,
        }
    }
}

/// Whether a market's close lies so far back.
pub open spec fn past_close(m: MarketInfo, now_ms: int, after_ms: int) -> bool {
    now_ms - m.close_ms >= after_ms
}

impl FairView {
    /// A run over a series before anything has come.
    pub open spec fn fresh(series: Series, sanity_dur_ms: i64) -> FairView {
        FairView {
            series,
            sanity_dur_ms,
            priced: Seq::empty(),
            markets: Seq::empty(),
            books: Seq::empty(),
            current: None,
            lifecycle: None,
            next: None,
            last_fair: None,
            sanity_since: None,
            sanity_breached: false,
            last_snapshot_ms: None,
            triggered: Seq::empty(),
            pending: Seq::empty(),
            events: Seq::empty(),
            ticks: 0,
            published: 0,
            dropped: 0,
            journaled: 0,
            resolved: 0,
            verify_exact: 0,
            verify_mismatch: 0,
            verify_unavailable: 0,
        }
    }

    /// With a line in the events pane.
    pub open spec fn noted(self, now_ms: i64, line: Seq<char>) -> FairView {
        FairView {
            events: screen::with_line(self.events, FAIR_PANE_LINES as nat, now_ms as int, line),
            ..self
        }
    }

    /// Whether a market event is the first that asks for a window to be priced.
    pub open spec fn asks_for_price(self, window: WindowId, lifecycle: WindowLifecycle) -> bool {
        &&& window.series == self.series
        &&& lifecycle == WindowLifecycle::Discovered || lifecycle == WindowLifecycle::Open
        &&& !holds_key(self.priced, window)
    }

    /// With a window priced, unless it is already; where it cannot be, a line says so.
    pub open spec fn with_price(
        self,
        market: MarketInfo,
        unpriceable: Option<Seq<char>>,
        now_ms: i64,
    ) -> FairView {
        if holds_key(self.priced, market.window) {
            self
        } else {
            match unpriceable {
                None => FairView { priced: put(self.priced, market.window, market), ..self },
                Some(e) => self.noted(
                    now_ms,
                    "UNPRICEABLE "@ + market.event_slug@ + ": "@ + e,
                ),
            }
        }
    }

    /// With a window's strike put down to be checked, once.
    pub open spec fn with_check(self, window: WindowId, now_ms: i64) -> FairView {
        if self.triggered.contains(window) {
            self
        } else {
            let t = FairView { triggered: self.triggered.push(window), ..self };
            match lookup(self.markets, window) {
                Some(m) => t.noted(now_ms, "VERIFY scheduled "@ + m.event_slug@),
                None => t,
            }
        }
    }

    /// The slug of a window that is now to be checked, where it is.
    pub open spec fn check_asked(self, window: WindowId) -> Option<Seq<char>> {
        if self.triggered.contains(window) {
            None
        } else {
            match lookup(self.markets, window) {
                Some(m) => Some(m.event_slug@),
                None => None,
            }
        }
    }

    /// After a market event. Only the run's own series counts.
    pub open spec fn with_window(
        self,
        market: MarketInfo,
        lifecycle: WindowLifecycle,
        unpriceable: Option<Seq<char>>,
        now_ms: i64,
    ) -> FairView {
        let window = market.window;
        if window.series != self.series {
            self
        } else {
            let known = FairView { markets: put(self.markets, window, market), ..self };
            match lifecycle {
                WindowLifecycle::Discovered => {
                    let priced = known.with_price(market, unpriceable, now_ms);
                    if self.current == Some(window) {
                        priced
                    } else {
                        FairView { next: Some(window), ..priced }
                    }
                },
                WindowLifecycle::Open => {
                    let priced = known.with_price(market, unpriceable, now_ms);
                    FairView {
                        current: Some(window),
                        lifecycle: Some(lifecycle),
                        next: if self.next == Some(window) {
                            None
                        } else {
                            self.next
                        },
                        sanity_since: None,
                        sanity_breached: false,
                        ..priced.noted(now_ms, "OPEN "@ + market.event_slug@)
                    }
                },
                WindowLifecycle::Closing | WindowLifecycle::Closed => if self.current == Some(
                    window,
                ) {
                    FairView { lifecycle: Some(lifecycle), ..known }
                } else {
                    known
                },
                WindowLifecycle::Resolved { outcome } => {
                    let counted = FairView { resolved: self.resolved + 1, ..known };
                    counted.noted(
                        now_ms,
                        "RESOLVED "@ + market.event_slug@ + " -> "@ + outcome.text_spec(),
                    ).with_check(window, now_ms)
                },
            }
        }
    }

    /// The slug of a window, or its name where its market is not known.
    pub open spec fn slug(self, window: WindowId) -> Seq<char> {
        match lookup(self.markets, window) {
            Some(m) => m.event_slug@,
            None => window.text_spec(),
        }
    }

    /// With a line for a change in a strike.
    pub open spec fn with_strike(self, event: StrikeEvent, now_ms: i64) -> FairView {
        let slug = self.slug(event.window);
        self.noted(
            now_ms,
            if event.revision {
                "STRIKE REVISED (held) "@ + slug
            } else {
                "STRIKE FROZEN "@ + slug
            },
        )
    }

    /// With a line for each of some changes in strikes.
    pub open spec fn with_strikes(self, events: Seq<StrikeEvent>, now_ms: i64) -> FairView
        decreases events.len(),
    {
        if events.len() == 0 {
            self
        } else {
            self.with_strikes(events.drop_last(), now_ms).with_strike(events.last(), now_ms)
        }
    }

    /// After a price of an asset, and the changes in strikes that it made. Only the run's own
    /// asset counts.
    pub open spec fn with_price_tick(
        self,
        asset: Asset,
        events: Seq<StrikeEvent>,
        now_ms: i64,
    ) -> FairView {
        if asset != self.series.asset {
            self
        } else {
            FairView { ticks: self.ticks + 1, ..self }.with_strikes(events, now_ms)
        }
    }

    /// After a look at how far model and book are apart: a breach is what has lasted for the
    /// whole of the bound's time.
    pub open spec fn with_sanity(self, apart: bool, now_ms: i64) -> FairView {
        if apart {
            let since = match self.sanity_since {
                Some(t) => t,
                None => now_ms,
            };
            FairView {
                sanity_since: Some(since),
                sanity_breached: now_ms - since >= self.sanity_dur_ms,
                ..self
            }
        } else {
            FairView { sanity_since: None, sanity_breached: false, ..self }
        }
    }

    /// After a reading of the current window, the change in health that it made, and a look at
    /// how far model and book are apart.
    pub open spec fn with_reading(
        self,
        fair: FairReading,
        transition: Option<HealthTransition>,
        apart: bool,
        now_ms: i64,
    ) -> FairView {
        let told = match transition {
            Some(t) => FairView { pending: self.pending.push(t), ..self }.noted(
                now_ms,
                transition_text(self.series.asset, t),
            ),
            None => self,
        };
        FairView { last_fair: Some(fair), ..told.with_sanity(apart, now_ms) }
    }

    /// Whether a snapshot is due.
    pub open spec fn snapshot_due(self, now_ms: int) -> bool {
        &&& self.current is Some
        &&& self.last_snapshot_ms matches Some(t) ==> now_ms - t >= SNAPSHOT_INTERVAL_MS
        &&& self.last_fair is Some
        &&& holds_key(self.markets, self.last_fair->0.window)
    }

    /// The middle of the current window's Up book.
    pub open spec fn up_mid_spec(self) -> Option<Figure> {
        match self.current {
            Some(w) => match lookup(self.markets, w) {
                Some(m) => match lookup(self.books, m.up_token@) {
                    Some(top) => top.mid_spec(),
                    None => None,
                },
                None => None,
            },
            None => None,
        }
    }

    /// The windows that are long past their close and were never checked.
    pub open spec fn overdue(self, n: int, now_ms: int) -> Seq<WindowId>
        decreases n,
    {
        if n <= 0 {
            Seq::empty()
        } else {
            let m = self.markets[n - 1].1;
            if past_close(m, now_ms, VERIFY_FALLBACK_MS as int) && !self.triggered.contains(
                m.window,
            ) {
                self.overdue(n - 1, now_ms).push(m.window)
            } else {
                self.overdue(n - 1, now_ms)
            }
        }
    }

    /// With some windows put down to be checked.
    pub open spec fn with_checks(self, windows: Seq<WindowId>, now_ms: i64) -> FairView
        decreases windows.len(),
    {
        if windows.len() == 0 {
            self
        } else {
            self.with_checks(windows.drop_last(), now_ms).with_check(windows.last(), now_ms)
        }
    }

    /// The checks that putting some windows down asks for.
    pub open spec fn checks_asked(self, windows: Seq<WindowId>, now_ms: i64) -> Seq<
        (WindowId, Seq<char>),
    >
        decreases windows.len(),
    {
        if windows.len() == 0 {
            Seq::empty()
        } else {
            let before = self.checks_asked(windows.drop_last(), now_ms);
            match self.with_checks(windows.drop_last(), now_ms).check_asked(windows.last()) {
                Some(slug) => before.push((windows.last(), slug)),
                None => before,
            }
        }
    }

    /// Whether a market may go: neither the current window nor the next, and long past its close.
    pub open spec fn is_stale(self, m: MarketInfo, now_ms: int) -> bool {
        &&& self.current != Some(m.window)
        &&& self.next != Some(m.window)
        &&& past_close(m, now_ms, PRUNE_AFTER_CLOSE_MS as int)
    }

    /// The markets that may go.
    pub open spec fn stale(self, n: int, now_ms: int) -> Seq<MarketInfo>
        decreases n,
    {
        if n <= 0 {
            Seq::empty()
        } else {
            let m = self.markets[n - 1].1;
            if self.is_stale(m, now_ms) {
                self.stale(n - 1, now_ms).push(m)
            } else {
                self.stale(n - 1, now_ms)
            }
        }
    }

    /// Without a market, its price and its books.
    pub open spec fn without(self, m: MarketInfo) -> FairView {
        FairView {
            priced: cut(self.priced, m.window),
            markets: cut(self.markets, m.window),
            books: cut(cut(self.books, m.up_token@), m.down_token@),
            ..self
        }
    }

    /// Without some markets.
    pub open spec fn without_all(self, gone: Seq<MarketInfo>) -> FairView
        decreases gone.len(),
    {
        if gone.len() == 0 {
            self
        } else {
            self.without_all(gone.drop_last()).without(gone.last())
        }
    }

    /// Without the markets that may go.
    pub open spec fn pruned(self, now_ms: int) -> FairView {
        self.without_all(self.stale(self.markets.len() as int, now_ms))
    }

    /// After a check of a strike.
    pub open spec fn with_verdict(self, r: VerifyResult, now_ms: i64) -> FairView {
        let counted = match r.verdict {
            Verdict::Exact => FairView { verify_exact: self.verify_exact + 1, ..self },
            Verdict::Unavailable => FairView {
                verify_unavailable: self.verify_unavailable + 1,
                ..self
            },
            _ => FairView { verify_mismatch: self.verify_mismatch + 1, ..self },
        };
        counted.noted(
            now_ms,
            match r.price_to_beat {
                Some(p) => "VERIFY "@ + r.slug@ + " "@ + r.verdict.text_spec() + " (matched "@
                    + r.matched.text_spec() + ", priceToBeat "@ + p@ + ")"@,
                None => "VERIFY "@ + r.slug@ + " unavailable"@,
            },
        )
    }
}

/// Whether every book's top can be computed with.
pub open spec fn tops_sane(books: Seq<(Seq<char>, TopOfBook)>) -> bool {
    forall|i: int| 0 <= i < books.len() ==> (#[trigger] books[i]).1.sane()
}

/// Whether a window is among some.
fn holds_window(windows: &Vec<WindowId>, window: WindowId) -> (r: bool)
    ensures
        r == windows@.contains(window),
{
    let mut i: usize = 0;
    while i < windows.len()
        invariant
            i <= windows@.len(),
            forall|j: int| 0 <= j < i ==> windows@[j] != window,
        decreases windows.len() - i,
    {
        if windows[i] == window {
            assert(windows@[i as int] == window);
            return true;
        }
        i = i + 1;
    }
    false
}

/// Whether an instant is at least so long after another.
pub fn elapsed(since_ms: i64, now_ms: i64, span_ms: i64) -> (r: bool)
    ensures
        r == (now_ms - since_ms >= span_ms),
{
    now_ms as i128 - since_ms as i128 >= span_ms as i128
}

/// The text of an optional error.
pub open spec fn error_of(e: Option<&str>) -> Option<Seq<char>> {
    match e {
        Some(t) => Some(t@),
        None => None,
    }
}

/// The checks as plain values.
pub open spec fn job_views(jobs: Seq<VerifyJob>) -> Seq<(WindowId, Seq<char>)> {
    jobs.map_values(|j: VerifyJob| (j.window, j.slug@))
}

impl FairState {
    /// Whether nothing is held twice, and the pane has its size.
    pub closed spec fn wf(&self) -> bool {
        &&& unique_keys(self.priced@)
        &&& unique_keys(self.markets@)
        &&& unique_keys(self.books@)
        &&& self.events.cap() == FAIR_PANE_LINES
    }

    /// A run over a series; model and book may be apart for so long.
    pub fn new(series: Series, sanity_dur_ms: i64) -> (r: FairState)
        ensures
            r.wf(),
            r@ == FairView::fresh(series, sanity_dur_ms),
    {
        FairState {
            series,
            sanity_dur_ms,
            priced: Table::new(),
            markets: Table::new(),
            books: Table::new(),
            current: None,
            lifecycle: None,
            next: None,
            last_fair: None,
            sanity_since: None,
            sanity_breached: false,
            last_snapshot_ms: None,
            triggered: Vec::new(),
            pending: Vec::new(),
            events: EventPane::new(FAIR_PANE_LINES),
            ticks: 0,
            published: 0,
            dropped: 0,
            journaled: 0,
            resolved: 0,
            verify_exact: 0,
            verify_mismatch: 0,
            verify_unavailable: 0,
        }
    }

    /// Whether a market event asks for a window to be priced.
    pub fn asks_for_price(&self, window: WindowId, lifecycle: WindowLifecycle) -> (r: bool)
        requires
            self.wf(),
        ensures
            r == self@.asks_for_price(window, lifecycle),
    {
        let early = match lifecycle {
            WindowLifecycle::Discovered | WindowLifecycle::Open => true,
            _ => false,
        };
        window.series == self.series && early && !self.priced.contains(&window)
    }

    fn price(&mut self, market: &MarketInfo, unpriceable: Option<&str>, now_ms: i64)
        requires
            old(self).wf(),
        ensures
            final(self).wf(),
            final(self)@ == old(self)@.with_price(*market, error_of(unpriceable), now_ms),
    {
        if self.priced.contains(&market.window) {
            return;
        }
        match unpriceable {
            None => {
                self.priced.insert(market.window, market.duplicate());
            },
            Some(e) => {
                let mut line = text::join2("UNPRICEABLE ", market.event_slug.as_str());
                line.append(": ");
                line.append(e);
                self.events.push(now_ms, line.as_str());
            },
        }
    }

    fn check(&mut self, window: WindowId, now_ms: i64) -> (r: Option<VerifyJob>)
        requires
            old(self).wf(),
        ensures
            final(self).wf(),
            final(self)@ == old(self)@.with_check(window, now_ms),
            match old(self)@.check_asked(window) {
                Some(slug) => r is Some && r->0.window == window && r->0.slug@ == slug,
                None => r is None,
            },
    {
        if holds_window(&self.triggered, window) {
            return None;
        }
        self.triggered.push(window);
        let slug = match self.markets.get(&window) {
            Some(m) => m.event_slug.clone(),
            None => {
                return None;
            },
        };
        self.events.push(now_ms, text::join2("VERIFY scheduled ", slug.as_str()).as_str());
        Some(VerifyJob { window, slug })
    }

    /// Takes a market event in. Where it asks for the window to be priced and that cannot be
    /// done, `unpriceable` says why.
    pub fn on_window(
        &mut self,
        market: &MarketInfo,
        lifecycle: WindowLifecycle,
        unpriceable: Option<&str>,
        now_ms: i64,
    ) -> (r: WindowEffects)
        requires
            old(self).wf(),
            old(self)@.resolved < u64::MAX,
        ensures
            final(self).wf(),
            final(self)@ == old(self)@.with_window(
                *market,
                lifecycle,
                error_of(unpriceable),
                now_ms,
            ),
            match lifecycle {
                WindowLifecycle::Resolved { outcome } => if market.window.series == old(
                    self,
                )@.series {
                    &&& r.outcome is Some
                    &&& r.outcome->0.ts == now_ms
                    &&& r.outcome->0.window@ == market.window.text_spec()
                    &&& r.outcome->0.slug@ == market.event_slug@
                    &&& r.outcome->0.outcome@ == outcome.text_spec()
                    &&& r.verify is Some <==> !old(self)@.triggered.contains(market.window)
                    &&& r.verify matches Some(job) ==> job.window == market.window && job.slug@
                        == market.event_slug@
                } else {
                    r.outcome is None && r.verify is None
                },
                _ => r.outcome is None && r.verify is None,
            },
    {
        if market.window.series != self.series {
            return WindowEffects { outcome: None, verify: None };
        }
        let window = market.window;
        proof {
            crate::table::lemma_put(self@.markets, window, *market);
        }
        self.markets.insert(window, market.duplicate());
        match lifecycle {
            WindowLifecycle::Discovered => {
                self.price(market, unpriceable, now_ms);
                if self.current != Some(window) {
                    self.next = Some(window);
                }
            },
            WindowLifecycle::Open => {
                self.price(market, unpriceable, now_ms);
                self.events.push(
                    now_ms,
                    text::join2("OPEN ", market.event_slug.as_str()).as_str(),
                );
                self.current = Some(window);
                self.lifecycle = Some(lifecycle);
                if self.next == Some(window) {
                    self.next = None;
                }
                self.sanity_since = None;
                self.sanity_breached = false;
            },
            WindowLifecycle::Closing | WindowLifecycle::Closed => {
                if self.current == Some(window) {
                    self.lifecycle = Some(lifecycle);
                }
            },
            WindowLifecycle::Resolved { outcome } => {
                self.resolved = self.resolved + 1;
                let mut line = text::join2("RESOLVED ", market.event_slug.as_str());
                line.append(" -> ");
                line.append(outcome.text());
                self.events.push(now_ms, line.as_str());
                let record = OutcomeRecord {
                    ts: now_ms,
                    window: window.text(),
                    slug: market.event_slug.clone(),
                    outcome: outcome.text().to_owned(),
                };
                let verify = self.check(window, now_ms);
                return WindowEffects { outcome: Some(record), verify };
            },
        }
        WindowEffects { outcome: None, verify: None }
    }

    /// Takes a book's top in.
    pub fn on_book(&mut self, token: &Id, top: TopOfBook)
        requires
            old(self).wf(),
        ensures
            final(self).wf(),
            final(self)@ == (FairView { books: put(old(self)@.books, token@, top), ..old(self)@ }),
    {
        self.books.insert(token.duplicate(), top);
    }

    fn slug_of(&self, window: WindowId) -> (r: String)
        requires
            self.wf(),
        ensures
            r@ == self@.slug(window),
    {
        match self.markets.get(&window) {
            Some(m) => m.event_slug.clone(),
            None => window.text(),
        }
    }

    fn note_strike(&mut self, event: StrikeEvent, now_ms: i64)
        requires
            old(self).wf(),
        ensures
            final(self).wf(),
            final(self)@ == old(self)@.with_strike(event, now_ms),
    {
        let slug = self.slug_of(event.window);
        let line = if event.revision {
            text::join2("STRIKE REVISED (held) ", slug.as_str())
        } else {
            text::join2("STRIKE FROZEN ", slug.as_str())
        };
        self.events.push(now_ms, line.as_str());
    }

    /// Takes in that a price of an asset came, with the changes in strikes that it made. Says
    /// whether the asset is the run's own, so that the current window is to be read anew.
    pub fn on_price(&mut self, asset: Asset, events: &Vec<StrikeEvent>, now_ms: i64) -> (r: bool)
        requires
            old(self).wf(),
            old(self)@.ticks < u64::MAX,
        ensures
            final(self).wf(),
            final(self)@ == old(self)@.with_price_tick(asset, events@, now_ms),
            r == (asset == old(self)@.series.asset),
    {
        if asset != self.series.asset {
            return false;
        }
        self.ticks = self.ticks + 1;
        let ghost start = self@;
        let mut i: usize = 0;
        assert(events@.subrange(0, 0) =~= Seq::empty());
        while i < events.len()
            invariant
                i <= events@.len(),
                self.wf(),
                self@ == start.with_strikes(events@.subrange(0, i as int), now_ms),
            decreases events.len() - i,
        {
            proof {
                let part = events@.subrange(0, i + 1);
                assert(part.drop_last() =~= events@.subrange(0, i as int));
                assert(part.last() == events@[i as int]);
            }
            self.note_strike(events[i], now_ms);
            i = i + 1;
        }
        assert(events@.subrange(0, i as int) =~= events@);
        true
    }

    /// The window to read, where it can be.
    pub fn to_read(&self) -> (r: Option<WindowId>)
        requires
            self.wf(),
        ensures
            r == (match self@.current {
                Some(w) => if holds_key(self@.priced, w) {
                    Some(w)
                } else {
                    None
                },
                None => None,
            }),
    {
        match self.current {
            Some(w) => if self.priced.contains(&w) {
                Some(w)
            } else {
                None
            },
            None => None,
        }
    }

    /// Takes a reading of the current window in, the change in health that it made, and whether
    /// model and book are too far apart.
    pub fn on_reading(
        &mut self,
        fair: FairReading,
        transition: Option<HealthTransition>,
        apart: bool,
        now_ms: i64,
    )
        requires
            old(self).wf(),
        ensures
            final(self).wf(),
            final(self)@ == old(self)@.with_reading(fair, transition, apart, now_ms),
    {
        if let Some(t) = transition {
            self.pending.push(t);
            self.events.push(now_ms, health_transition_line(self.series.asset, t).as_str());
        }
        if apart {
            let since: i64 = match self.sanity_since {
                Some(t) => t,
                None => now_ms,
            };
            self.sanity_since = Some(since);
            self.sanity_breached = elapsed(since, now_ms, self.sanity_dur_ms);
        } else {
            self.sanity_since = None;
            self.sanity_breached = false;
        }
        self.last_fair = Some(fair);
    }

    /// The reading to publish, where there is one.
    pub fn to_publish(&self) -> (r: Option<FairReading>)
        ensures
            r == (match self@.last_fair {
                Some(f) => if f.publishable {
                    Some(f)
                } else {
                    None
                },
                None => None,
            }),
    {
        match self.last_fair {
            Some(f) => if f.publishable {
                Some(f)
            } else {
                None
            },
            None => None,
        }
    }

    /// Takes in whether a reading went out.
    pub fn on_published(&mut self, sent: bool)
        requires
            old(self).wf(),
            old(self)@.published < u64::MAX,
            old(self)@.dropped < u64::MAX,
        ensures
            final(self).wf(),
            final(self)@ == (if sent {
                FairView { published: old(self)@.published + 1, ..old(self)@ }
            } else {
                FairView { dropped: old(self)@.dropped + 1, ..old(self)@ }
            }),
    {
        if sent {
            self.published = self.published + 1;
        } else {
            self.dropped = self.dropped + 1;
        }
    }

    /// The oldest change in health that has not gone out.
    pub fn next_health(&self) -> (r: Option<HealthTransition>)
        ensures
            r == (if self@.pending.len() > 0 {
                Some(self@.pending[0])
            } else {
                None
            }),
    {
        if self.pending.len() > 0 {
            Some(self.pending[0])
        } else {
            None
        }
    }

    /// Takes in that the oldest change in health went out.
    pub fn on_health_sent(&mut self)
        requires
            old(self).wf(),
            old(self)@.pending.len() > 0,
        ensures
            final(self).wf(),
            final(self)@ == (FairView { pending: old(self)@.pending.remove(0), ..old(self)@ }),
    {
        let _ = self.pending.remove(0);
    }

    /// Takes in that a record went out.
    pub fn on_journaled(&mut self)
        requires
            old(self).wf(),
            old(self)@.journaled < u64::MAX,
        ensures
            final(self).wf(),
            final(self)@ == (FairView { journaled: old(self)@.journaled + 1, ..old(self)@ }),
    {
        self.journaled = self.journaled + 1;
    }

    /// The middle of the current window's Up book.
    pub fn up_mid(&self) -> (r: Option<Figure>)
        requires
            self.wf(),
            tops_sane(self@.books),
        ensures
            r == self@.up_mid_spec(),
    {
        match self.current {
            Some(w) => match self.markets.get(&w) {
                Some(m) => match self.books.get(&m.up_token) {
                    Some(top) => {
                        proof {
                            let p = crate::table::place(self@.books, m.up_token@);
                            assert(self@.books[p].1.sane());
                        }
                        top.mid()
                    },
                    None => None,
                },
                None => None,
            },
            None => None,
        }
    }

    /// The record of the last reading, where one is due.
    pub fn take_snapshot(&mut self, now_ms: i64) -> (r: Option<SnapshotRecord>)
        requires
            old(self).wf(),
            tops_sane(old(self)@.books),
        ensures
            final(self).wf(),
            if old(self)@.snapshot_due(now_ms as int) {
                &&& final(self)@ == (FairView { last_snapshot_ms: Some(now_ms), ..old(self)@ })
                &&& r is Some
                &&& r->0.records(old(self)@, now_ms)
            } else {
                &&& final(self)@ == old(self)@
                &&& r is None
            },
    {
        if self.current.is_none() {
            return None;
        }
        let due = match self.last_snapshot_ms {
            Some(t) => elapsed(t, now_ms, SNAPSHOT_INTERVAL_MS),
            None => true,
        };
        if !due {
            return None;
        }
        let fair = match self.last_fair {
            Some(f) => f,
            None => {
                return None;
            },
        };
        let mid = self.up_mid();
        let record = match self.markets.get(&fair.window) {
            None => {
                return None;
            },
            Some(m) => {
                let (bid, ask) = match self.books.get(&m.up_token) {
                    Some(top) => (
                        match top.bid {
                            Some(l) => Some(l.price),
                            None => None,
                        },
                        match top.ask {
                            Some(l) => Some(l.price),
                            None => None,
                        },
                    ),
                    None => (None, None),
                };
                SnapshotRecord {
                    ts: now_ms,
                    window: fair.window.text(),
                    slug: m.event_slug.clone(),
                    fair,
                    strike_quality: quality_label(fair.strike.quality),
                    anchor: anchor_label(fair.anchor),
                    book_bid_up: bid,
                    book_ask_up: ask,
                    book_mid_up: mid,
                    sanity_breach: self.sanity_breached,
                    health: health_label(fair.health),
                    reason: reason_label(fair.reason),
                }
            },
        };
        self.last_snapshot_ms = Some(now_ms);
        Some(record)
    }

    /// Puts the windows down to be checked that are long past their close and were never
    /// resolved.
    pub fn check_overdue(&mut self, now_ms: i64) -> (r: Vec<VerifyJob>)
        requires
            old(self).wf(),
        ensures
            final(self).wf(),
            final(self)@ == old(self)@.with_checks(
                old(self)@.overdue(old(self)@.markets.len() as int, now_ms as int),
                now_ms,
            ),
            job_views(r@) == old(self)@.checks_asked(
                old(self)@.overdue(old(self)@.markets.len() as int, now_ms as int),
                now_ms,
            ),
    {
        let ghost start = self@;
        let mut windows: Vec<WindowId> = Vec::new();
        let n: usize = self.markets.len();
        let mut i: usize = 0;
        while i < n
            invariant
                i <= n,
                n == self@.markets.len(),
                self.wf(),
                self@ == start,
                windows@ == start.overdue(i as int, now_ms as int),
            decreases n - i,
        {
            let m = self.markets.value_at(i);
            assert(*m == start.markets[i as int].1);
            if elapsed(m.close_ms, now_ms, VERIFY_FALLBACK_MS) && !holds_window(
                &self.triggered,
                m.window,
            ) {
                windows.push(m.window);
            }
            i = i + 1;
        }
        let mut jobs: Vec<VerifyJob> = Vec::new();
        let mut k: usize = 0;
        assert(windows@.subrange(0, 0) =~= Seq::empty());
        assert(job_views(jobs@) =~= Seq::empty());
        while k < windows.len()
            invariant
                k <= windows@.len(),
                self.wf(),
                self@ == start.with_checks(windows@.subrange(0, k as int), now_ms),
                job_views(jobs@) == start.checks_asked(windows@.subrange(0, k as int), now_ms),
            decreases windows.len() - k,
        {
            proof {
                let part = windows@.subrange(0, k + 1);
                assert(part.drop_last() =~= windows@.subrange(0, k as int));
                assert(part.last() == windows@[k as int]);
            }
            let ghost before = job_views(jobs@);
            if let Some(job) = self.check(windows[k], now_ms) {
                jobs.push(job);
                assert(job_views(jobs@) =~= before.push((job.window, job.slug@)));
            }
            k = k + 1;
        }
        assert(windows@.subrange(0, k as int) =~= windows@);
        jobs
    }

    fn let_go(&mut self, m: &MarketInfo)
        requires
            old(self).wf(),
        ensures
            final(self).wf(),
            final(self)@ == old(self)@.without(*m),
    {
        let _ = self.priced.remove(&m.window);
        let _ = self.markets.remove(&m.window);
        let _ = self.books.remove(&m.up_token);
        let _ = self.books.remove(&m.down_token);
    }

    /// Lets the markets go that are long past their close and neither current nor next. Says
    /// which.
    pub fn prune(&mut self, now_ms: i64) -> (r: Vec<WindowId>)
        requires
            old(self).wf(),
        ensures
            final(self).wf(),
            final(self)@ == old(self)@.pruned(now_ms as int),
            r@ == old(self)@.stale(old(self)@.markets.len() as int, now_ms as int).map_values(
                |m: MarketInfo| m.window,
            ),
    {
        let ghost start = self@;
        let mut gone: Vec<MarketInfo> = Vec::new();
        let n: usize = self.markets.len();
        let mut i: usize = 0;
        while i < n
            invariant
                i <= n,
                n == self@.markets.len(),
                self.wf(),
                self@ == start,
                gone@ == start.stale(i as int, now_ms as int),
            decreases n - i,
        {
            let m = self.markets.value_at(i);
            assert(*m == start.markets[i as int].1);
            if self.current != Some(m.window) && self.next != Some(m.window) && elapsed(
                m.close_ms,
                now_ms,
                PRUNE_AFTER_CLOSE_MS,
            ) {
                gone.push(m.duplicate());
            }
            i = i + 1;
        }
        let mut windows: Vec<WindowId> = Vec::new();
        let mut k: usize = 0;
        assert(gone@.subrange(0, 0) =~= Seq::empty());
        while k < gone.len()
            invariant
                k <= gone@.len(),
                self.wf(),
                self@ == start.without_all(gone@.subrange(0, k as int)),
                windows@.len() == k,
                forall|j: int| 0 <= j < k ==> windows@[j] == (#[trigger] gone@[j]).window,
            decreases gone.len() - k,
        {
            proof {
                let part = gone@.subrange(0, k + 1);
                assert(part.drop_last() =~= gone@.subrange(0, k as int));
                assert(part.last() == gone@[k as int]);
            }
            self.let_go(&gone[k]);
            windows.push(gone[k].window);
            k = k + 1;
        }
        assert(gone@.subrange(0, k as int) =~= gone@);
        assert(windows@ =~= gone@.map_values(|m: MarketInfo| m.window));
        windows
    }

    /// Takes in what a check of a strike came to.
    pub fn on_verify(&mut self, result: &VerifyResult, now_ms: i64)
        requires
            old(self).wf(),
            old(self)@.verify_exact < u64::MAX,
            old(self)@.verify_mismatch < u64::MAX,
            old(self)@.verify_unavailable < u64::MAX,
        ensures
            final(self).wf(),
            final(self)@ == old(self)@.with_verdict(*result, now_ms),
    {
        match result.verdict {
            Verdict::Exact => {
                self.verify_exact = self.verify_exact + 1;
            },
            Verdict::Unavailable => {
                self.verify_unavailable = self.verify_unavailable + 1;
            },
            _ => {
                self.verify_mismatch = self.verify_mismatch + 1;
            },
        }
        let mut line = text::join2("VERIFY ", result.slug.as_str());
        match &result.price_to_beat {
            Some(p) => {
                line.append(" ");
                line.append(result.verdict.text());
                line.append(" (matched ");
                line.append(result.matched.text());
                line.append(", priceToBeat ");
                line.append(p.as_str());
                line.append(")");
            },
            None => {
                line.append(" unavailable");
            },
        }
        self.events.push(now_ms, line.as_str());
    }
}

impl SnapshotRecord {
    /// Whether a record is that of a run's last reading.
    pub open spec fn records(self, v: FairView, now_ms: i64) -> bool {
        let fair = v.last_fair->0;
        let market = lookup(v.markets, fair.window)->0;
        let top = lookup(v.books, market.up_token@);
        &&& self.ts == now_ms
        &&& self.window@ == fair.window.text_spec()
        &&& self.slug@ == market.event_slug@
        &&& self.fair == fair
        &&& self.strike_quality@ == quality_text(fair.strike.quality)
        &&& self.anchor@ == anchor_text(fair.anchor)
        &&& self.book_bid_up == match top {
            Some(t) => screen::price_of(t.bid),
            None => None,
        }
        &&& self.book_ask_up == match top {
            Some(t) => screen::price_of(t.ask),
            None => None,
        }
        &&& self.book_mid_up == v.up_mid_spec()
        &&& self.sanity_breach == v.sanity_breached
        &&& self.health@ == health_text(fair.health)
        &&& self.reason@ == reason_text(fair.reason)
    }
}

/// An offset, or a dash.
pub open spec fn offset_text(ms: Option<i64>) -> Seq<char> {
    match ms {
        Some(n) => with_sign(n as int) + "ms"@,
        None => "-"@,
    }
}

fn offset_shown(ms: Option<i64>) -> (r: String)
    ensures
        r@ == offset_text(ms),
{
    match ms {
        Some(n) => text::join2(signed_text(n).as_str(), "ms"),
        None => "-".to_owned(),
    }
}

/// The line of the strike.
pub open spec fn strike_line(fair: Option<FairReading>, shown: FairShown) -> Seq<char> {
    match fair {
        Some(f) => "strike K "@ + text_or_dash(shown.k) + "  rule "@ + rule_text(f.strike.rule)
            + "  quality "@ + quality_text(f.strike.quality) + (if f.strike.frozen {
            " FROZEN"@
        } else {
            ""@
        }) + "  [before "@ + offset_text(f.strike.before_ms) + ", after "@ + offset_text(
            f.strike.after_ms,
        ) + "]\n"@,
        None => "strike  (warming up)\n"@,
    }
}

fn strike_row(fair: Option<FairReading>, shown: &FairShown) -> (r: String)
    ensures
        r@ == strike_line(fair, *shown),
{
    match fair {
        Some(f) => {
            let mut s = "strike K ".to_owned();
            s.append(shown_or_dash(&shown.k).as_str());
            s.append("  rule ");
            s.append(rule_label(f.strike.rule));
            s.append("  quality ");
            s.append(quality_label(f.strike.quality));
            s.append(
                if f.strike.frozen {
                    " FROZEN"
                } else {
                    ""
                },
            );
            s.append("  [before ");
            s.append(offset_shown(f.strike.before_ms).as_str());
            s.append(", after ");
            s.append(offset_shown(f.strike.after_ms).as_str());
            s.append("]\n");
            s
        },
        None => "strike  (warming up)\n".to_owned(),
    }
}

/// The line of the model's inputs.
pub open spec fn inputs_line(fair: Option<FairReading>, shown: FairShown) -> Seq<char> {
    match fair {
        Some(_) => "inputs  chainlink "@ + text_or_dash(shown.chainlink) + " ("@ + text_or_dash(
            shown.chainlink_age,
        ) + ")  binance "@ + text_or_dash(shown.fast) + " ("@ + text_or_dash(shown.fast_age)
            + ")  S "@ + text_or_dash(shown.anchor_price) + "  basis "@ + text_or_dash(shown.basis)
            + "  div "@ + text_or_dash(shown.divergence) + "\n"@,
        None => "inputs  (warming up)\n"@,
    }
}

fn inputs_row(fair: Option<FairReading>, shown: &FairShown) -> (r: String)
    ensures
        r@ == inputs_line(fair, *shown),
{
    match fair {
        Some(_) => {
            let mut s = "inputs  chainlink ".to_owned();
            s.append(shown_or_dash(&shown.chainlink).as_str());
            s.append(" (");
            s.append(shown_or_dash(&shown.chainlink_age).as_str());
            s.append(")  binance ");
            s.append(shown_or_dash(&shown.fast).as_str());
            s.append(" (");
            s.append(shown_or_dash(&shown.fast_age).as_str());
            s.append(")  S ");
            s.append(shown_or_dash(&shown.anchor_price).as_str());
            s.append("  basis ");
            s.append(shown_or_dash(&shown.basis).as_str());
            s.append("  div ");
            s.append(shown_or_dash(&shown.divergence).as_str());
            s.append("\n");
            s
        },
        None => "inputs  (warming up)\n".to_owned(),
    }
}

/// The line of what the model made of them.
pub open spec fn model_line(fair: Option<FairReading>, shown: FairShown) -> Seq<char> {
    match fair {
        Some(f) => "model   sigma_1s "@ + text_or_dash(shown.sigma_1s) + "  sigma_tau "@
            + text_or_dash(shown.sigma_tau) + "  z "@ + text_or_dash(shown.z) + "  p_up "@
            + text_or_dash(shown.p_up) + "  ["@ + health_text(f.health) + "/"@ + reason_text(
            f.reason,
        ) + " via "@ + anchor_text(f.anchor) + "]\n"@,
        None => "model   (warming up)\n"@,
    }
}

fn model_row(fair: Option<FairReading>, shown: &FairShown) -> (r: String)
    ensures
        r@ == model_line(fair, *shown),
{
    match fair {
        Some(f) => {
            let mut s = "model   sigma_1s ".to_owned();
            s.append(shown_or_dash(&shown.sigma_1s).as_str());
            s.append("  sigma_tau ");
            s.append(shown_or_dash(&shown.sigma_tau).as_str());
            s.append("  z ");
            s.append(shown_or_dash(&shown.z).as_str());
            s.append("  p_up ");
            s.append(shown_or_dash(&shown.p_up).as_str());
            s.append("  [");
            s.append(health_label(f.health));
            s.append("/");
            s.append(reason_label(f.reason));
            s.append(" via ");
            s.append(anchor_label(f.anchor));
            s.append("]\n");
            s
        },
        None => "model   (warming up)\n".to_owned(),
    }
}

/// The first two lines of the view.
pub open spec fn window_lines(v: FairView, window: WindowId, market: MarketInfo, now_ms: int) -> Seq<
    char,
> {
    v.series.key_spec() + " "@ + window.text_spec() + "  polymarket.com/event/"@
        + market.event_slug@ + "\nphase "@ + text::padded_right(
        screen::phase_text(v.lifecycle),
        10,
    ) + " closes in "@ + text::padded_left(
        calendar::countdown_spec(screen::time_between(now_ms, market.close_ms as int)),
        8,
        ' ',
    ) + "\n"@
}

/// The line of the book.
pub open spec fn book_line(shown: FairShown, breached: bool) -> Seq<char> {
    "book    Up mid "@ + text_or_dash(shown.mid) + "  |p_up - mid| "@ + text_or_dash(shown.gap) + (
    if breached {
        "  SANITY BREACH"@
    } else {
        ""@
    }) + "\n"@
}

/// The view as text.
pub open spec fn fair_frame(v: FairView, shown: FairShown, now_ms: int) -> Seq<char> {
    match v.current {
        None => screen::clear_screen() + "fair ["@ + v.series.key_spec()
            + "] waiting for the current window (discovery + scheduler warming up)\u{2026}\n"@,
        Some(window) => match lookup(v.markets, window) {
            None => screen::clear_screen(),
            Some(market) => screen::clear_screen() + window_lines(v, window, market, now_ms)
                + strike_line(v.last_fair, shown) + inputs_line(v.last_fair, shown) + model_line(
                v.last_fair,
                shown,
            ) + book_line(shown, v.sanity_breached) + screen::pane_text(v.events),
        },
    }
}

/// What a run came to.
pub open spec fn fair_summary(v: FairView, ran_ms: int) -> Seq<char> {
    "\nrun summary: "@ + text::digits(v.ticks) + " ticks, "@ + text::digits(v.published)
        + " snapshots published ("@ + text::digits(v.dropped) + " dropped), "@ + text::digits(
        v.journaled,
    ) + " journaled, "@ + text::digits(v.resolved) + " resolutions, verify "@ + text::digits(
        v.verify_exact,
    ) + "/"@ + text::digits(v.verify_exact + v.verify_mismatch + v.verify_unavailable)
        + " exact ("@ + text::digits(v.verify_mismatch) + " mismatch, "@ + text::digits(
        v.verify_unavailable,
    ) + " unavailable) over "@ + calendar::countdown_spec(ran_ms)
}

impl FairState {
    fn window_rows(&self, window: WindowId, market: &MarketInfo, now_ms: i64) -> (r: String)
        ensures
            r@ == window_lines(self@, window, *market, now_ms as int),
    {
        let mut s = self.series.key().to_owned();
        s.append(" ");
        s.append(window.text().as_str());
        s.append("  polymarket.com/event/");
        s.append(market.event_slug.as_str());
        s.append("\nphase ");
        s.append(text::pad_right(screen::phase(self.lifecycle).as_str(), 10).as_str());
        s.append(" closes in ");
        s.append(
            text::pad_left(
                calendar::fmt_countdown(screen::ms_between(now_ms, market.close_ms)).as_str(),
                8,
                ' ',
            ).as_str(),
        );
        s.append("\n");
        s
    }

    fn book_row(&self, shown: &FairShown) -> (r: String)
        ensures
            r@ == book_line(*shown, self@.sanity_breached),
    {
        let mut s = "book    Up mid ".to_owned();
        s.append(shown_or_dash(&shown.mid).as_str());
        s.append("  |p_up - mid| ");
        s.append(shown_or_dash(&shown.gap).as_str());
        s.append(
            if self.sanity_breached {
                "  SANITY BREACH"
            } else {
                ""
            },
        );
        s.append("\n");
        s
    }

    /// The last reading.
    pub fn last_reading(&self) -> (r: Option<FairReading>)
        ensures
            r == self@.last_fair,
    {
        self.last_fair
    }

    /// The view as text, with the numbers of the last reading as they are shown.
    pub fn draw(&self, shown: &FairShown, now_ms: i64) -> (r: String)
        requires
            self.wf(),
        ensures
            r@ == fair_frame(self@, *shown, now_ms as int),
    {
        let mut frame = "\u{1b}[H\u{1b}[J".to_owned();
        match self.current {
            None => {
                frame.append("fair [");
                frame.append(self.series.key());
                frame.append(
                    "] waiting for the current window (discovery + scheduler warming up)\u{2026}\n",
                );
            },
            Some(window) => {
                if let Some(market) = self.markets.get(&window) {
                    frame.append(self.window_rows(window, market, now_ms).as_str());
                    frame.append(strike_row(self.last_fair, shown).as_str());
                    frame.append(inputs_row(self.last_fair, shown).as_str());
                    frame.append(model_row(self.last_fair, shown).as_str());
                    frame.append(self.book_row(shown).as_str());
                    frame.append(self.events.text().as_str());
                }
            },
        }
        frame
    }

    /// What a run of so many milliseconds came to.
    pub fn summary(&self, ran_ms: i64) -> (r: String)
        requires
            self@.verify_exact + self@.verify_mismatch + self@.verify_unavailable <= u64::MAX,
        ensures
            r@ == fair_summary(self@, ran_ms as int),
    {
        let checked: u64 = self.verify_exact + self.verify_mismatch + self.verify_unavailable;
        let mut s = "\nrun summary: ".to_owned();
        s.append(text::u64_text(self.ticks).as_str());
        s.append(" ticks, ");
        s.append(text::u64_text(self.published).as_str());
        s.append(" snapshots published (");
        s.append(text::u64_text(self.dropped).as_str());
        s.append(" dropped), ");
        s.append(text::u64_text(self.journaled).as_str());
        s.append(" journaled, ");
        s.append(text::u64_text(self.resolved).as_str());
        s.append(" resolutions, verify ");
        s.append(text::u64_text(self.verify_exact).as_str());
        s.append("/");
        s.append(text::u64_text(checked).as_str());
        s.append(" exact (");
        s.append(text::u64_text(self.verify_mismatch).as_str());
        s.append(" mismatch, ");
        s.append(text::u64_text(self.verify_unavailable).as_str());
        s.append(" unavailable) over ");
        s.append(calendar::fmt_countdown(ran_ms).as_str());
        s
    }
}

/// A window's strike is put down to be checked at most once.
pub proof fn law_checked_once(v: FairView, window: WindowId, now_ms: i64, later_ms: i64)
    ensures
        v.with_check(window, now_ms).triggered.contains(window),
        v.with_check(window, now_ms).with_check(window, later_ms) == v.with_check(window, now_ms),
        v.with_check(window, now_ms).check_asked(window) is None,
{
    if !v.triggered.contains(window) {
        assert(v.triggered.push(window).last() == window);
    }
}

/// Only markets that may go are let go.
proof fn lemma_stale_are_stale(v: FairView, n: int, now_ms: int)
    requires
        0 <= n <= v.markets.len(),
    ensures
        forall|i: int|
            0 <= i < v.stale(n, now_ms).len() ==> v.is_stale(
                #[trigger] v.stale(n, now_ms)[i],
                now_ms,
            ),
    decreases n,
{
    if n > 0 {
        lemma_stale_are_stale(v, n - 1, now_ms);
        let before = v.stale(n - 1, now_ms);
        let all = v.stale(n, now_ms);
        assert forall|i: int| 0 <= i < all.len() implies v.is_stale(#[trigger] all[i], now_ms) by {
            if i < before.len() {
                assert(all[i] == before[i]);
            }
        }
    }
}

proof fn lemma_others_stay(v: FairView, gone: Seq<MarketInfo>, window: WindowId)
    requires
        unique_keys(v.markets),
        unique_keys(v.priced),
        forall|i: int| 0 <= i < gone.len() ==> (#[trigger] gone[i]).window != window,
    ensures
        unique_keys(v.without_all(gone).markets),
        unique_keys(v.without_all(gone).priced),
        lookup(v.without_all(gone).markets, window) == lookup(v.markets, window),
        lookup(v.without_all(gone).priced, window) == lookup(v.priced, window),
    decreases gone.len(),
{
    if gone.len() > 0 {
        let rest = gone.drop_last();
        assert forall|i: int| 0 <= i < rest.len() implies (#[trigger] rest[i]).window != window by {
            assert(rest[i] == gone[i]);
        }
        lemma_others_stay(v, rest, window);
        let before = v.without_all(rest);
        crate::table::lemma_cut(before.markets, gone.last().window);
        crate::table::lemma_cut(before.priced, gone.last().window);
        assert(gone[gone.len() - 1].window != window);
    }
}

/// Neither the current window nor the next is ever let go.
pub proof fn law_live_windows_stay(v: FairView, window: WindowId, now_ms: int)
    requires
        unique_keys(v.markets),
        unique_keys(v.priced),
        v.current == Some(window) || v.next == Some(window),
    ensures
        lookup(v.pruned(now_ms).markets, window) == lookup(v.markets, window),
        lookup(v.pruned(now_ms).priced, window) == lookup(v.priced, window),
{
    let gone = v.stale(v.markets.len() as int, now_ms);
    lemma_stale_are_stale(v, v.markets.len() as int, now_ms);
    assert forall|i: int| 0 <= i < gone.len() implies (#[trigger] gone[i]).window != window by {
        assert(v.is_stale(gone[i], now_ms));
    }
    lemma_others_stay(v, gone, window);
}

/// Model and book count as too long apart only after having been apart at every look for the
/// whole of the bound's time: one look at which they are not starts it over.
pub proof fn law_breach_needs_its_time(v: FairView, now_ms: i64, later_ms: i64)
    ensures
        !v.with_sanity(false, now_ms).sanity_breached,
        v.with_sanity(false, now_ms).with_sanity(true, later_ms).sanity_breached
            == (v.sanity_dur_ms <= 0),
{
}

/// A window of the run's series is known from its first event on, and of its newest data. One that
/// opens becomes the current one and starts the time apart over; one that is discovered is the
/// next, unless it is current already; one that is closing or closed changes the phase where it is
/// the current one; one that is resolved is counted and checked. Nothing else moves them.
pub proof fn law_windows_move_the_run(
    v: FairView,
    market: MarketInfo,
    lifecycle: WindowLifecycle,
    unpriceable: Option<Seq<char>>,
    now_ms: i64,
    other: WindowId,
)
    requires
        unique_keys(v.markets),
        unique_keys(v.priced),
    ensures
        ({
            let w = market.window;
            let after = v.with_window(market, lifecycle, unpriceable, now_ms);
            let own = w.series == v.series;
            &&& !own ==> after == v
            &&& own ==> lookup(after.markets, w) == Some(market)
            &&& other != w ==> lookup(after.markets, other) == lookup(v.markets, other)
            &&& own && lifecycle is Open ==> after.current == Some(w) && after.lifecycle == Some(
                lifecycle,
            ) && after.sanity_since is None && !after.sanity_breached && after.next == (
            if v.next == Some(w) {
                None
            } else {
                v.next
            })
            &&& own && lifecycle is Discovered ==> after.current == v.current && after.lifecycle
                == v.lifecycle && after.next == (if v.current == Some(w) {
                v.next
            } else {
                Some(w)
            })
            &&& own && !(lifecycle is Open) && !(lifecycle is Discovered) ==> after.current
                == v.current && after.next == v.next
            &&& own && (lifecycle is Closing || lifecycle is Closed) ==> after.lifecycle == (
            if v.current == Some(w) {
                Some(lifecycle)
            } else {
                v.lifecycle
            })
            &&& own && lifecycle is Resolved ==> after.resolved == v.resolved + 1
                && after.triggered.contains(w) && after.lifecycle == v.lifecycle
            &&& !(lifecycle is Resolved) ==> after.resolved == v.resolved && after.triggered
                == v.triggered
            &&& own ==> (holds_key(after.priced, w) <==> holds_key(v.priced, w) || ((
            lifecycle is Discovered || lifecycle is Open) && unpriceable is None))
            &&& after.books == v.books && after.last_fair == v.last_fair && after.pending
                == v.pending && after.ticks == v.ticks
        }),
{
    let w = market.window;
    crate::table::lemma_put(v.markets, w, market);
    crate::table::lemma_put(v.priced, w, market);
    assert(lookup(v.markets, other) == lookup(v.markets, other));
    if lifecycle is Resolved && !v.triggered.contains(w) {
        let t = v.triggered.push(w);
        assert(t[t.len() - 1] == w);
    }
    if lifecycle is Discovered || lifecycle is Open {
        assert(holds_key(put(v.priced, w, market), w));
    }
}

/// A price is asked for a window of the run's series that is yet to close and has none.
pub proof fn law_price_is_asked_once(v: FairView, window: WindowId, lifecycle: WindowLifecycle)
    ensures
        v.asks_for_price(window, lifecycle) <==> window.series == v.series && !holds_key(
            v.priced,
            window,
        ) && !(lifecycle is Closing) && !(lifecycle is Closed) && !(lifecycle is Resolved),
{
}

/// Snapshots are a second apart or more. Once the second is over one is due, where the window
/// that was read is known and one is current.
pub proof fn law_snapshots_are_a_second_apart(v: FairView, now_ms: int)
    ensures
        v.last_snapshot_ms matches Some(t) ==> now_ms - t < 1_000 ==> !v.snapshot_due(now_ms),
        v.current is None || v.last_fair is None ==> !v.snapshot_due(now_ms),
        v.current is Some && v.last_fair is Some && holds_key(v.markets, v.last_fair->0.window) && (
        v.last_snapshot_ms is None || now_ms - v.last_snapshot_ms->0 >= 1_000) ==> v.snapshot_due(
            now_ms,
        ),
{
}

/// A snapshot has the book of the Up token of the window that was read, bid as bid and ask as ask,
/// and says of the model what was read.
pub proof fn law_snapshot_is_of_the_up_book(
    r: SnapshotRecord,
    v: FairView,
    now_ms: i64,
    fair: FairReading,
    market: MarketInfo,
)
    requires
        r.records(v, now_ms),
        v.last_fair == Some(fair),
        lookup(v.markets, fair.window) == Some(market),
    ensures
        r.ts == now_ms,
        r.slug@ == market.event_slug@,
        r.fair == fair,
        r.sanity_breach == v.sanity_breached,
        r.health@ == health_text(fair.health),
        r.reason@ == reason_text(fair.reason),
        lookup(v.books, market.up_token@) is None ==> r.book_bid_up is None && r.book_ask_up is None,
        lookup(v.books, market.up_token@) matches Some(top) ==> {
            &&& top.bid is None ==> r.book_bid_up is None
            &&& top.ask is None ==> r.book_ask_up is None
            &&& top.bid is Some ==> r.book_bid_up == Some(top.bid->0.price)
            &&& top.ask is Some ==> r.book_ask_up == Some(top.ask->0.price)
        },
{
}

/// The middle that is shown is that of the current window's Up book, and none where one of them
/// is missing.
pub proof fn law_mid_is_of_the_current_up_book(v: FairView, w: WindowId, m: MarketInfo)
    ensures
        v.current is None ==> v.up_mid_spec() is None,
        v.current == Some(w) && lookup(v.markets, w) is None ==> v.up_mid_spec() is None,
        v.current == Some(w) && lookup(v.markets, w) == Some(m) ==> {
            let top = lookup(v.books, m.up_token@);
            v.up_mid_spec() == (if top is Some {
                top->0.mid_spec()
            } else {
                None
            })
        },
{
}

/// A window is overdue where it closed a minute and a half ago or more and was never checked, and
/// only there.
pub proof fn law_overdue_are_a_minute_and_a_half_past(v: FairView, window: WindowId, now_ms: int)
    ensures
        v.overdue(v.markets.len() as int, now_ms).contains(window) <==> exists|i: int|
            0 <= i < v.markets.len() && (#[trigger] v.markets[i]).1.window == window && now_ms
                - v.markets[i].1.close_ms >= 90_000 && !v.triggered.contains(window),
{
    lemma_overdue(v, v.markets.len() as int, window, now_ms);
}

proof fn lemma_overdue(v: FairView, n: int, window: WindowId, now_ms: int)
    requires
        0 <= n <= v.markets.len(),
    ensures
        v.overdue(n, now_ms).contains(window) <==> exists|i: int|
            0 <= i < n && (#[trigger] v.markets[i]).1.window == window && now_ms
                - v.markets[i].1.close_ms >= 90_000 && !v.triggered.contains(window),
    decreases n,
{
    if n > 0 {
        lemma_overdue(v, n - 1, window, now_ms);
        let before = v.overdue(n - 1, now_ms);
        let all = v.overdue(n, now_ms);
        let m = v.markets[n - 1].1;
        if past_close(m, now_ms, VERIFY_FALLBACK_MS as int) && !v.triggered.contains(m.window) {
            assert(all == before.push(m.window));
            assert(all[all.len() - 1] == m.window);
            if before.contains(window) {
                let i = before.index_of(window);
                assert(all[i] == window);
            }
            if all.contains(window) && window != m.window {
                let i = all.index_of(window);
                assert(before[i] == window);
            }
        }
    }
}

/// A window that is neither current nor next is let go, with its price, once it closed two hundred
/// seconds ago.
pub proof fn law_closed_windows_are_let_go(v: FairView, i: int, now_ms: int)
    requires
        unique_keys(v.markets),
        unique_keys(v.priced),
        0 <= i < v.markets.len(),
        v.current != Some(v.markets[i].1.window),
        v.next != Some(v.markets[i].1.window),
        now_ms - v.markets[i].1.close_ms >= 200_000,
    ensures
        lookup(v.pruned(now_ms).markets, v.markets[i].1.window) is None,
        lookup(v.pruned(now_ms).priced, v.markets[i].1.window) is None,
{
    let n = v.markets.len() as int;
    lemma_stale_are_listed(v, n, now_ms, i);
    let gone = v.stale(n, now_ms);
    let k = gone.index_of(v.markets[i].1);
    lemma_gone(v, gone, k);
}

proof fn lemma_stale_are_listed(v: FairView, n: int, now_ms: int, i: int)
    requires
        0 <= i < n <= v.markets.len(),
        v.is_stale(v.markets[i].1, now_ms),
    ensures
        v.stale(n, now_ms).contains(v.markets[i].1),
    decreases n,
{
    let all = v.stale(n, now_ms);
    if i == n - 1 {
        assert(all[all.len() - 1] == v.markets[i].1);
    } else {
        lemma_stale_are_listed(v, n - 1, now_ms, i);
        let before = v.stale(n - 1, now_ms);
        let k = before.index_of(v.markets[i].1);
        assert(all[k] == v.markets[i].1);
    }
}

proof fn lemma_gone(v: FairView, gone: Seq<MarketInfo>, k: int)
    requires
        unique_keys(v.markets),
        unique_keys(v.priced),
        0 <= k < gone.len(),
    ensures
        unique_keys(v.without_all(gone).markets),
        unique_keys(v.without_all(gone).priced),
        lookup(v.without_all(gone).markets, gone[k].window) is None,
        lookup(v.without_all(gone).priced, gone[k].window) is None,
    decreases gone.len(),
{
    let rest = gone.drop_last();
    let before = v.without_all(rest);
    let w = gone[k].window;
    if k < rest.len() {
        lemma_gone(v, rest, k);
    } else {
        lemma_keys_stay_unique(v, rest);
    }
    crate::table::lemma_cut(before.markets, gone.last().window);
    crate::table::lemma_cut(before.priced, gone.last().window);
    assert(lookup(before.markets, w) == lookup(before.markets, w));
    assert(lookup(before.priced, w) == lookup(before.priced, w));
}

proof fn lemma_keys_stay_unique(v: FairView, gone: Seq<MarketInfo>)
    requires
        unique_keys(v.markets),
        unique_keys(v.priced),
    ensures
        unique_keys(v.without_all(gone).markets),
        unique_keys(v.without_all(gone).priced),
    decreases gone.len(),
{
    if gone.len() > 0 {
        lemma_keys_stay_unique(v, gone.drop_last());
        let before = v.without_all(gone.drop_last());
        crate::table::lemma_cut(before.markets, gone.last().window);
        crate::table::lemma_cut(before.priced, gone.last().window);
    }
}

/// Each check counts once: as exact where it is, as unavailable where the venue never published,
/// and as a mismatch otherwise.
pub proof fn law_each_check_counts_once(v: FairView, r: VerifyResult, now_ms: i64)
    ensures
        ({
            let after = v.with_verdict(r, now_ms);
            &&& after.verify_exact + after.verify_mismatch + after.verify_unavailable
                == v.verify_exact + v.verify_mismatch + v.verify_unavailable + 1
            &&& after.verify_exact == v.verify_exact + 1 <==> r.verdict == Verdict::Exact
            &&& after.verify_exact == v.verify_exact <==> r.verdict != Verdict::Exact
            &&& after.verify_unavailable == v.verify_unavailable + 1 <==> r.verdict
                == Verdict::Unavailable
            &&& after.verify_unavailable == v.verify_unavailable <==> r.verdict
                != Verdict::Unavailable
            &&& after.markets == v.markets && after.triggered == v.triggered
        }),
{
}

/// A price of the run's own asset is a tick, and one of another asset is nothing.
pub proof fn law_ticks_are_of_the_own_asset(
    v: FairView,
    asset: Asset,
    events: Seq<StrikeEvent>,
    now_ms: i64,
)
    ensures
        asset != v.series.asset ==> v.with_price_tick(asset, events, now_ms) == v,
        asset == v.series.asset ==> v.with_price_tick(asset, events, now_ms).ticks == v.ticks + 1,
{
    lemma_strikes_only_note(FairView { ticks: v.ticks + 1, ..v }, events, now_ms);
}

proof fn lemma_strikes_only_note(v: FairView, events: Seq<StrikeEvent>, now_ms: i64)
    ensures
        v.with_strikes(events, now_ms) == (FairView {
            events: v.with_strikes(events, now_ms).events,
            ..v
        }),
    decreases events.len(),
{
    if events.len() > 0 {
        lemma_strikes_only_note(v, events.drop_last(), now_ms);
    }
}

/// A reading is the last one until the next; the change in health that came with it waits behind
/// those that have not gone out. How long model and book have been apart runs from the first of
/// the looks at which they were.
pub proof fn law_reading_is_taken_in(
    v: FairView,
    fair: FairReading,
    transition: Option<HealthTransition>,
    apart: bool,
    now_ms: i64,
)
    ensures
        ({
            let after = v.with_reading(fair, transition, apart, now_ms);
            &&& after.last_fair == Some(fair)
            &&& transition is None ==> after.pending == v.pending && after.events == v.events
            &&& transition matches Some(t) ==> after.pending == v.pending.push(t)
            &&& !apart ==> after.sanity_since is None && !after.sanity_breached
            &&& apart && v.sanity_since is None ==> after.sanity_since == Some(now_ms)
            &&& apart && v.sanity_since is Some ==> after.sanity_since == v.sanity_since
            &&& apart ==> (after.sanity_breached <==> now_ms - after.sanity_since->0
                >= v.sanity_dur_ms)
            &&& after.current == v.current && after.markets == v.markets && after.ticks == v.ticks
        }),
{
}

/// A run begins with nothing counted, known or current.
pub proof fn law_run_begins_with_nothing(series: Series, sanity_dur_ms: i64)
    ensures
        ({
            let v = FairView::fresh(series, sanity_dur_ms);
            &&& v.series == series && v.sanity_dur_ms == sanity_dur_ms
            &&& v.current is None && v.next is None && v.lifecycle is None && v.last_fair is None
            &&& v.markets.len() == 0 && v.books.len() == 0 && v.priced.len() == 0
            &&& v.pending.len() == 0 && v.triggered.len() == 0 && v.events.len() == 0
            &&& v.ticks == 0 && v.published == 0 && v.dropped == 0 && v.journaled == 0
            &&& v.resolved == 0 && v.verify_exact == 0 && v.verify_mismatch == 0
            &&& v.verify_unavailable == 0 && !v.sanity_breached && v.last_snapshot_ms is None
        }),
{
}

/// The pane holds the newest eight lines.
pub proof fn law_pane_holds_eight_lines(v: FairView, now_ms: i64, line: Seq<char>)
    requires
        v.events.len() <= 8,
    ensures
        v.noted(now_ms, line).events.len() <= 8,
        v.events.len() < 8 ==> v.noted(now_ms, line).events.len() == v.events.len() + 1,
        v.noted(now_ms, line).events.last() == calendar::fmt_ts_spec(now_ms as int) + " "@ + line,
{
}

/// A check is asked of the venue for a window that was not checked before and is known, by the
/// window's own slug.
pub proof fn law_check_is_asked_by_the_slug(v: FairView, window: WindowId)
    ensures
        v.triggered.contains(window) || lookup(v.markets, window) is None ==> v.check_asked(window)
            is None,
        !v.triggered.contains(window) && lookup(v.markets, window) is Some ==> v.check_asked(window)
            == Some(lookup(v.markets, window)->0.event_slug@),
{
}

/// A window is told of by its slug, and by itself where it is not known.
pub proof fn law_window_is_told_by_its_slug(v: FairView, window: WindowId)
    ensures
        lookup(v.markets, window) matches Some(m) ==> v.slug(window) == m.event_slug@,
        lookup(v.markets, window) is None ==> v.slug(window) == window.text_spec(),
{
}

/// What is shown of a strike are its own prints: the one before the opening as before and the one
/// after it as after, each with its sign.
pub proof fn law_strike_is_shown_with_its_prints(f: FairReading, shown: FairShown)
    ensures
        strike_line(Some(f), shown) == "strike K "@ + text_or_dash(shown.k) + "  rule "@ + rule_text(
            f.strike.rule,
        ) + "  quality "@ + quality_text(f.strike.quality) + (if f.strike.frozen {
            " FROZEN"@
        } else {
            ""@
        }) + "  [before "@ + offset_text(f.strike.before_ms) + ", after "@ + offset_text(
            f.strike.after_ms,
        ) + "]\n"@,
        offset_text(None) == "-"@,
        f.strike.before_ms matches Some(n) ==> offset_text(f.strike.before_ms) == with_sign(
            n as int,
        ) + "ms"@,
{
}

/// A breach is shown where there is one and not otherwise.
pub proof fn law_breach_is_shown(shown: FairShown)
    ensures
        book_line(shown, true) != book_line(shown, false),
        book_line(shown, true).len() == book_line(shown, false).len() + "  SANITY BREACH"@.len(),
{
    reveal_strlit("  SANITY BREACH");
    reveal_strlit("");
    assert(book_line(shown, true).len() == book_line(shown, false).len()
        + "  SANITY BREACH"@.len());
}

/// What a run tells in the end are its own counts: of all checks, those that were exact first, and
/// then those that were not and those that could not be made.
pub proof fn law_run_tells_its_own_counts(v: FairView, ran_ms: int)
    ensures
        fair_summary(v, ran_ms) == "\nrun summary: "@ + text::digits(v.ticks) + " ticks, "@
            + text::digits(v.published) + " snapshots published ("@ + text::digits(v.dropped)
            + " dropped), "@ + text::digits(v.journaled) + " journaled, "@ + text::digits(v.resolved)
            + " resolutions, verify "@ + text::digits(v.verify_exact) + "/"@ + text::digits(
            v.verify_exact + v.verify_mismatch + v.verify_unavailable,
        ) + " exact ("@ + text::digits(v.verify_mismatch) + " mismatch, "@ + text::digits(
            v.verify_unavailable,
        ) + " unavailable) over "@ + calendar::countdown_spec(ran_ms),
{
}

} // verus!
