//! The fair-value model over several series: which windows it prices, which it reads, and what
//! goes out.

use vstd::prelude::*;

use crate::fair::{HealthTransition, ModelHealth, ModelHealthReason};
use crate::fair_state::{elapsed, past_close, FairReading, PRUNE_AFTER_CLOSE_MS};
use crate::table::{cut, holds_key, lookup, put, unique_keys, Table};
use crate::types::{Asset, MarketInfo, Series, WindowId, WindowLifecycle};

verus! {

/// The model over several series. Each asset has one model, shared by its windows.
#[derive(Clone, Debug)]
pub struct ModelRuntime {
    assets: Table<Asset, Vec<HealthTransition>>,
    priced: Table<WindowId, MarketInfo>,
    markets: Table<WindowId, MarketInfo>,
    open: Table<Series, WindowId>,
    lifecycles: Table<WindowId, WindowLifecycle>,
    readings: Table<WindowId, FairReading>,
}

/// The same as plain values: for each asset the changes in health that have not gone out, the
/// windows that are priced, the known markets, each series' window that opened last, where each
/// window stands, and the last readings.
pub struct RuntimeModelView {
    pub assets: Seq<(Asset, Seq<HealthTransition>)>,
    pub priced: Seq<(WindowId, MarketInfo)>,
    pub markets: Seq<(WindowId, MarketInfo)>,
    pub open: Seq<(Series, WindowId)>,
    pub lifecycles: Seq<(WindowId, WindowLifecycle)>,
    pub readings: Seq<(WindowId, FairReading)>,
}

impl View for ModelRuntime {
    type V = RuntimeModelView;

    closed spec fn view(&self) -> RuntimeModelView {
        RuntimeModelView {
            assets: self.assets@,
            priced: self.priced@,
            markets: self.markets@,
            open: self.open@,
            lifecycles: self.lifecycles@,
            readings: self.readings@,
        }
    }
}

/// The assets of some series, each once, with nothing to go out.
pub open spec fn assets_of(series: Seq<Series>) -> Seq<(Asset, Seq<HealthTransition>)>
    decreases series.len(),
{
    if series.len() == 0 {
        Seq::empty()
    } else {
        let before = assets_of(series.drop_last());
        let asset = series.last().asset;
        if holds_key(before, asset) {
            before
        } else {
            put(before, asset, Seq::empty())
        }
    }
}

/// With the health of an asset's model on its readings.
pub open spec fn stamped(
    readings: Seq<(WindowId, FairReading)>,
    asset: Asset,
    health: ModelHealth,
    reason: ModelHealthReason,
) -> Seq<(WindowId, FairReading)> {
    readings.map_values(
        |e: (WindowId, FairReading)|
            if e.0.series.asset == asset {
                (e.0, FairReading { health, reason, ..e.1 })
            } else {
                e
            },
    )
}

/// The readings that can be published.
pub open spec fn publishable(readings: Seq<(WindowId, FairReading)>) -> Seq<FairReading>
    decreases readings.len(),
{
    if readings.len() == 0 {
        Seq::empty()
    } else if readings.last().1.publishable {
        publishable(readings.drop_last()).push(readings.last().1)
    } else {
        publishable(readings.drop_last())
    }
}

/// The readings by window.
pub open spec fn by_window(readings: Seq<FairReading>) -> Seq<(WindowId, FairReading)>
    decreases readings.len(),
{
    if readings.len() == 0 {
        Seq::empty()
    } else {
        put(by_window(readings.drop_last()), readings.last().window, readings.last())
    }
}

impl RuntimeModelView {
    /// Whether a market event asks for a window to be priced.
    pub open spec fn asks_for_price(self, window: WindowId, lifecycle: WindowLifecycle) -> bool {
        &&& lifecycle == WindowLifecycle::Discovered || lifecycle == WindowLifecycle::Open
        &&& !holds_key(self.priced, window)
    }

    /// After a market event.
    pub open spec fn with_window(
        self,
        market: MarketInfo,
        lifecycle: WindowLifecycle,
        priceable: bool,
    ) -> RuntimeModelView {
        let window = market.window;
        RuntimeModelView {
            priced: if self.asks_for_price(window, lifecycle) && priceable {
                put(self.priced, window, market)
            } else {
                self.priced
            },
            markets: put(self.markets, window, market),
            open: if lifecycle == WindowLifecycle::Open {
                put(self.open, window.series, window)
            } else {
                self.open
            },
            lifecycles: put(self.lifecycles, window, lifecycle),
            ..self
        }
    }

    /// Whether a window is to be read: it trades, its asset has a model, and it is priced.
    pub open spec fn is_active(self, window: WindowId) -> bool {
        &&& lookup(self.lifecycles, window) == Some(WindowLifecycle::Open) || lookup(
            self.lifecycles,
            window,
        ) == Some(WindowLifecycle::Closing)
        &&& holds_key(self.assets, window.series.asset)
        &&& holds_key(self.priced, window)
    }

    /// The windows to read among those that opened last, for the first `n` series.
    pub open spec fn active(self, n: int) -> Seq<WindowId>
        decreases n,
    {
        if n <= 0 {
            Seq::empty()
        } else if self.is_active(self.open[n - 1].1) {
            self.active(n - 1).push(self.open[n - 1].1)
        } else {
            self.active(n - 1)
        }
    }

    /// The priced windows of an asset among the first `n`.
    pub open spec fn fed(self, asset: Asset, n: int) -> Seq<WindowId>
        decreases n,
    {
        if n <= 0 {
            Seq::empty()
        } else if self.priced[n - 1].0.series.asset == asset {
            self.fed(asset, n - 1).push(self.priced[n - 1].0)
        } else {
            self.fed(asset, n - 1)
        }
    }

    /// Whether a market may go: its window is not the one that opened last in its series, and
    /// it is long past its close.
    pub open spec fn is_stale(self, m: MarketInfo, now_ms: int) -> bool {
        &&& lookup(self.open, m.window.series) != Some(m.window)
        &&& past_close(m, now_ms, PRUNE_AFTER_CLOSE_MS as int)
    }

    /// The windows that may go.
    pub open spec fn stale(self, n: int, now_ms: int) -> Seq<WindowId>
        decreases n,
    {
        if n <= 0 {
            Seq::empty()
        } else if self.is_stale(self.markets[n - 1].1, now_ms) {
            self.stale(n - 1, now_ms).push(self.markets[n - 1].1.window)
        } else {
            self.stale(n - 1, now_ms)
        }
    }

    /// Without a window.
    pub open spec fn without(self, window: WindowId) -> RuntimeModelView {
        RuntimeModelView {
            priced: cut(self.priced, window),
            markets: cut(self.markets, window),
            lifecycles: cut(self.lifecycles, window),
            readings: cut(self.readings, window),
            ..self
        }
    }

    /// Without some windows.
    pub open spec fn without_all(self, gone: Seq<WindowId>) -> RuntimeModelView
        decreases gone.len(),
    {
        if gone.len() == 0 {
            self
        } else {
            self.without_all(gone.drop_last()).without(gone.last())
        }
    }
}

/// The first reading of an asset; where `ready` is asked for, the first that can be published.
pub open spec fn first_reading(
    readings: Seq<(WindowId, FairReading)>,
    asset: Asset,
    ready: bool,
) -> Option<FairReading>
    decreases readings.len(),
{
    if readings.len() == 0 {
        None
    } else {
        match first_reading(readings.drop_last(), asset, ready) {
            Some(f) => Some(f),
            None => {
                let (window, f) = readings.last();
                if window.series.asset == asset && (f.publishable || !ready) {
                    Some(f)
                } else {
                    None
                }
            },
        }
    }
}

/// The reading that speaks for an asset: the first that can be published, so that a window that
/// is warming up cannot speak for one that is not; else the first.
pub open spec fn speaking(readings: Seq<(WindowId, FairReading)>, asset: Asset) -> Option<
    FairReading,
> {
    match first_reading(readings, asset, true) {
        Some(f) => Some(f),
        None => first_reading(readings, asset, false),
    }
}

impl ModelRuntime {
    /// Whether nothing is held twice.
    pub closed spec fn wf(&self) -> bool {
        &&& unique_keys(self.assets@)
        &&& unique_keys(self.priced@)
        &&& unique_keys(self.markets@)
        &&& unique_keys(self.open@)
        &&& unique_keys(self.lifecycles@)
        &&& unique_keys(self.readings@)
    }

    /// A model for each asset of some series.
    pub fn new(series: &Vec<Series>) -> (r: ModelRuntime)
        ensures
            r.wf(),
            r@ == (RuntimeModelView {
                assets: assets_of(series@),
                priced: Seq::empty(),
                markets: Seq::empty(),
                open: Seq::empty(),
                lifecycles: Seq::empty(),
                readings: Seq::empty(),
            }),
    {
        let mut assets: Table<Asset, Vec<HealthTransition>> = Table::new();
        let mut i: usize = 0;
        assert(series@.subrange(0, 0) =~= Seq::empty());
        while i < series.len()
            invariant
                i <= series@.len(),
                unique_keys(assets@),
                assets@ == assets_of(series@.subrange(0, i as int)),
            decreases series.len() - i,
        {
            proof {
                let part = series@.subrange(0, i + 1);
                assert(part.drop_last() =~= series@.subrange(0, i as int));
                assert(part.last() == series@[i as int]);
            }
            let asset = series[i].asset;
            if !assets.contains(&asset) {
                let none: Vec<HealthTransition> = Vec::new();
                assert(none@ =~= Seq::empty());
                assets.insert(asset, none);
            }
            i = i + 1;
        }
        assert(series@.subrange(0, i as int) =~= series@);
        ModelRuntime {
            assets,
            priced: Table::new(),
            markets: Table::new(),
            open: Table::new(),
            lifecycles: Table::new(),
            readings: Table::new(),
        }
    }

    /// How many models there are.
    pub fn asset_count(&self) -> (r: usize)
        ensures
            r == self@.assets.len(),
    {
        self.assets.len()
    }

    /// How many windows are priced.
    pub fn engine_count(&self) -> (r: usize)
        ensures
            r == self@.priced.len(),
    {
        self.priced.len()
    }

    /// The window of a series that opened last.
    pub fn current_window(&self, series: Series) -> (r: Option<WindowId>)
        requires
            self.wf(),
        ensures
            r == lookup(self@.open, series),
    {
        match self.open.get(&series) {
            Some(w) => Some(*w),
            None => None,
        }
    }

    /// Whether an asset has a model.
    pub fn knows(&self, asset: Asset) -> (r: bool)
        requires
            self.wf(),
        ensures
            r == holds_key(self@.assets, asset),
    {
        self.assets.contains(&asset)
    }

    /// The windows that a price of an asset is for.
    pub fn windows_of(&self, asset: Asset) -> (r: Vec<WindowId>)
        ensures
            r@ == self@.fed(asset, self@.priced.len() as int),
    {
        let mut out: Vec<WindowId> = Vec::new();
        let n: usize = self.priced.len();
        let mut i: usize = 0;
        while i < n
            invariant
                i <= n,
                n == self@.priced.len(),
                out@ == self@.fed(asset, i as int),
            decreases n - i,
        {
            let w = *self.priced.key_at(i);
            assert(w == self@.priced[i as int].0);
            if w.series.asset == asset {
                out.push(w);
            }
            i = i + 1;
        }
        out
    }

    /// Whether a market event asks for a window to be priced.
    pub fn asks_for_price(&self, window: WindowId, lifecycle: WindowLifecycle) -> (r: bool)
        requires
            self.wf(),
        ensures
            r == self@.asks_for_price(window, lifecycle),
    {
        let early = match lifecycle {
            WindowLifecycle::Discovered | WindowLifecycle::Open => true,
            _ => false,
        };
        early && !self.priced.contains(&window)
    }

    /// Takes a market event in; `priceable` says whether the window can be priced, where that
    /// is asked for.
    pub fn on_window(&mut self, market: &MarketInfo, lifecycle: WindowLifecycle, priceable: bool)
        requires
            old(self).wf(),
        ensures
            final(self).wf(),
            final(self)@ == old(self)@.with_window(*market, lifecycle, priceable),
    {
        let window = market.window;
        if self.asks_for_price(window, lifecycle) && priceable {
            self.priced.insert(window, market.duplicate());
        }
        self.markets.insert(window, market.duplicate());
        self.lifecycles.insert(window, lifecycle);
        if lifecycle == WindowLifecycle::Open {
            self.open.insert(window.series, window);
        }
    }

    /// Whether a window is to be read.
    fn is_active(&self, window: WindowId) -> (r: bool)
        requires
            self.wf(),
        ensures
            r == self@.is_active(window),
    {
        let trades = match self.lifecycles.get(&window) {
            Some(WindowLifecycle::Open) | Some(WindowLifecycle::Closing) => true,
            _ => false,
        };
        trades && self.assets.contains(&window.series.asset) && self.priced.contains(&window)
    }

    /// The windows to read.
    pub fn active(&self) -> (r: Vec<WindowId>)
        requires
            self.wf(),
        ensures
            r@ == self@.active(self@.open.len() as int),
    {
        let mut out: Vec<WindowId> = Vec::new();
        let n: usize = self.open.len();
        let mut i: usize = 0;
        while i < n
            invariant
                i <= n,
                n == self@.open.len(),
                self.wf(),
                out@ == self@.active(i as int),
            decreases n - i,
        {
            let w = *self.open.value_at(i);
            assert(w == self@.open[i as int].1);
            if self.is_active(w) {
                out.push(w);
            }
            i = i + 1;
        }
        out
    }

    /// Takes new readings in, in place of the last.
    pub fn on_readings(&mut self, readings: &Vec<FairReading>)
        requires
            old(self).wf(),
        ensures
            final(self).wf(),
            final(self)@ == (RuntimeModelView { readings: by_window(readings@), ..old(self)@ }),
    {
        let mut table: Table<WindowId, FairReading> = Table::new();
        let mut i: usize = 0;
        assert(readings@.subrange(0, 0) =~= Seq::empty());
        while i < readings.len()
            invariant
                i <= readings@.len(),
                unique_keys(table@),
                table@ == by_window(readings@.subrange(0, i as int)),
            decreases readings.len() - i,
        {
            proof {
                let part = readings@.subrange(0, i + 1);
                assert(part.drop_last() =~= readings@.subrange(0, i as int));
                assert(part.last() == readings@[i as int]);
            }
            table.insert(readings[i].window, readings[i]);
            i = i + 1;
        }
        assert(readings@.subrange(0, i as int) =~= readings@);
        self.readings = table;
    }

    /// The reading that speaks for an asset's health, where there is one.
    pub fn representative(&self, asset: Asset) -> (r: Option<FairReading>)
        ensures
            r == speaking(self@.readings, asset),
    {
        let ghost all = self@.readings;
        let mut ready: Option<FairReading> = None;
        let mut first: Option<FairReading> = None;
        let n: usize = self.readings.len();
        let mut i: usize = 0;
        assert(all.subrange(0, 0) =~= Seq::empty());
        while i < n
            invariant
                i <= n,
                n == all.len(),
                all == self@.readings,
                ready == first_reading(all.subrange(0, i as int), asset, true),
                first == first_reading(all.subrange(0, i as int), asset, false),
            decreases n - i,
        {
            let w = *self.readings.key_at(i);
            let f = *self.readings.value_at(i);
            proof {
                let part = all.subrange(0, i + 1);
                assert(part.drop_last() =~= all.subrange(0, i as int));
                assert(part.last() == (w, f));
            }
            if w.series.asset == asset {
                if ready.is_none() && f.publishable {
                    ready = Some(f);
                }
                if first.is_none() {
                    first = Some(f);
                }
            }
            i = i + 1;
        }
        assert(all.subrange(0, i as int) =~= all);
        match ready {
            Some(f) => Some(f),
            None => first,
        }
    }

    /// Takes the health of an asset's model in: it goes onto the asset's readings, and a change
    /// is put down to go out.
    pub fn on_health(
        &mut self,
        asset: Asset,
        health: ModelHealth,
        reason: ModelHealthReason,
        transition: Option<HealthTransition>,
    )
        requires
            old(self).wf(),
            holds_key(old(self)@.assets, asset),
        ensures
            final(self).wf(),
            final(self)@.readings == stamped(old(self)@.readings, asset, health, reason),
            final(self)@.assets == (match transition {
                Some(t) => put(
                    old(self)@.assets,
                    asset,
                    lookup(old(self)@.assets, asset)->0.push(t),
                ),
                None => old(self)@.assets,
            }),
            final(self)@ == (RuntimeModelView {
                readings: final(self)@.readings,
                assets: final(self)@.assets,
                ..old(self)@
            }),
    {
        let ghost before = self@;
        if let Some(t) = transition {
            if let Some(at) = self.assets.find(&asset) {
                proof {
                    let pending = before.assets[at as int].1.push(t);
                    crate::table::lemma_change(before.assets, at as int, pending);
                }
                self.assets.value_mut(at).push(t);
            }
        }
        self.stamp(asset, health, reason);
    }

    /// Puts a health onto an asset's readings.
    fn stamp(&mut self, asset: Asset, health: ModelHealth, reason: ModelHealthReason)
        requires
            old(self).wf(),
        ensures
            final(self).wf(),
            final(self)@ == (RuntimeModelView {
                readings: stamped(old(self)@.readings, asset, health, reason),
                ..old(self)@
            }),
    {
        let ghost before = self@;
        let ghost goal = stamped(before.readings, asset, health, reason);
        let n: usize = self.readings.len();
        let mut i: usize = 0;
        while i < n
            invariant
                i <= n,
                n == before.readings.len(),
                goal == stamped(before.readings, asset, health, reason),
                self.wf(),
                self@ == (RuntimeModelView { readings: self@.readings, ..before }),
                self@.readings.len() == n,
                forall|j: int| 0 <= j < i ==> #[trigger] self@.readings[j] == goal[j],
                forall|j: int| i <= j < n ==> #[trigger] self@.readings[j] == before.readings[j],
            decreases n - i,
        {
            let w = *self.readings.key_at(i);
            if w.series.asset == asset {
                let f = *self.readings.value_at(i);
                *self.readings.value_mut(i) = FairReading { health, reason, ..f };
            }
            i = i + 1;
        }
        assert(self@.readings =~= goal);
    }

    /// The readings to publish.
    pub fn to_publish(&self) -> (r: Vec<FairReading>)
        ensures
            r@ == publishable(self@.readings),
    {
        let ghost all = self@.readings;
        let mut out: Vec<FairReading> = Vec::new();
        let n: usize = self.readings.len();
        let mut i: usize = 0;
        assert(all.subrange(0, 0) =~= Seq::empty());
        while i < n
            invariant
                i <= n,
                n == all.len(),
                all == self@.readings,
                out@ == publishable(all.subrange(0, i as int)),
            decreases n - i,
        {
            let f = *self.readings.value_at(i);
            proof {
                let part = all.subrange(0, i + 1);
                assert(part.drop_last() =~= all.subrange(0, i as int));
                assert(part.last().1 == f);
            }
            if f.publishable {
                out.push(f);
            }
            i = i + 1;
        }
        assert(all.subrange(0, i as int) =~= all);
        out
    }

    /// The oldest change in an asset's health that has not gone out.
    pub fn next_health(&self, asset: Asset) -> (r: Option<HealthTransition>)
        requires
            self.wf(),
        ensures
            r == (match lookup(self@.assets, asset) {
                Some(p) => if p.len() > 0 {
                    Some(p[0])
                } else {
                    None
                },
                None => None,
            }),
    {
        match self.assets.get(&asset) {
            Some(p) => if p.len() > 0 {
                Some(p[0])
            } else {
                None
            },
            None => None,
        }
    }

    /// Takes in that the oldest change in an asset's health went out.
    pub fn on_health_sent(&mut self, asset: Asset)
        requires
            old(self).wf(),
            lookup(old(self)@.assets, asset) matches Some(p) && p.len() > 0,
        ensures
            final(self).wf(),
            final(self)@ == (RuntimeModelView {
                assets: put(
                    old(self)@.assets,
                    asset,
                    lookup(old(self)@.assets, asset)->0.remove(0),
                ),
                ..old(self)@
            }),
    {
        let ghost before = self@;
        if let Some(at) = self.assets.find(&asset) {
            proof {
                let pending = before.assets[at as int].1.remove(0);
                crate::table::lemma_change(before.assets, at as int, pending);
            }
            let _ = self.assets.value_mut(at).remove(0);
        }
    }

    fn let_go(&mut self, window: WindowId)
        requires
            old(self).wf(),
        ensures
            final(self).wf(),
            final(self)@ == old(self)@.without(window),
    {
        let _ = self.priced.remove(&window);
        let _ = self.markets.remove(&window);
        let _ = self.lifecycles.remove(&window);
        let _ = self.readings.remove(&window);
    }

    /// Lets the windows go that are long past their close and did not open last in their series.
    /// Says which.
    pub fn prune(&mut self, now_ms: i64) -> (r: Vec<WindowId>)
        requires
            old(self).wf(),
        ensures
            final(self).wf(),
            r@ == old(self)@.stale(old(self)@.markets.len() as int, now_ms as int),
            final(self)@ == old(self)@.without_all(r@),
    {
        let ghost start = self@;
        let mut gone: Vec<WindowId> = Vec::new();
        let n: usize = self.markets.len();
        let mut i: usize = 0;
        while i < n
            invariant
                i <= n,
                n == self@.markets.len(),
                self.wf(),
                self@ == start,
                gone@ == start.stale(i as int, now_ms as int),
            decreases n - i,
        {
            let m = self.markets.value_at(i);
            assert(*m == start.markets[i as int].1);
            let live = match self.open.get(&m.window.series) {
                Some(w) => *w == m.window,
                None => false,
            };
            if !live && elapsed(m.close_ms, now_ms, PRUNE_AFTER_CLOSE_MS) {
                gone.push(m.window);
            }
            i = i + 1;
        }
        let mut k: usize = 0;
        assert(gone@.subrange(0, 0) =~= Seq::empty());
        while k < gone.len()
            invariant
                k <= gone@.len(),
                self.wf(),
                self@ == start.without_all(gone@.subrange(0, k as int)),
            decreases gone.len() - k,
        {
            proof {
                let part = gone@.subrange(0, k + 1);
                assert(part.drop_last() =~= gone@.subrange(0, k as int));
                assert(part.last() == gone@[k as int]);
            }
            self.let_go(gone[k]);
            k = k + 1;
        }
        assert(gone@.subrange(0, k as int) =~= gone@);
        gone
    }
}

/// However many of an asset's series are followed, the asset has one model; and every followed
/// series' asset has one.
pub proof fn law_one_model_per_asset(series: Seq<Series>)
    ensures
        unique_keys(assets_of(series)),
        forall|i: int| 0 <= i < series.len() ==> holds_key(
            assets_of(series),
            (#[trigger] series[i]).asset,
        ),
        forall|a: Asset|
            holds_key(assets_of(series), a) ==> exists|i: int|
                0 <= i < series.len() && (#[trigger] series[i]).asset == a,
    decreases series.len(),
{
    if series.len() > 0 {
        let rest = series.drop_last();
        law_one_model_per_asset(rest);
        let before = assets_of(rest);
        let asset = series.last().asset;
        crate::table::lemma_put(before, asset, Seq::<HealthTransition>::empty());
        let after = assets_of(series);
        assert forall|i: int| 0 <= i < series.len() implies holds_key(
            after,
            (#[trigger] series[i]).asset,
        ) by {
            if i < rest.len() {
                assert(rest[i] == series[i]);
                let a = series[i].asset;
                let j = choose|j: int| 0 <= j < before.len() && before[j].0 == a;
                assert(after[j].0 == a);
            } else if holds_key(before, asset) {
            } else {
                assert(after[before.len() as int].0 == asset);
            }
        }
        assert forall|a: Asset| holds_key(after, a) implies exists|i: int|
            0 <= i < series.len() && (#[trigger] series[i]).asset == a by {
            if holds_key(before, a) {
                let i = choose|i: int| 0 <= i < rest.len() && (#[trigger] rest[i]).asset == a;
                assert(series[i].asset == a);
            } else {
                let j = choose|j: int| 0 <= j < after.len() && (#[trigger] after[j]).0 == a;
                if j < before.len() {
                    assert(before[j].0 == a);
                }
                assert(series[series.len() - 1].asset == a);
            }
        }
    }
}

/// Where a reading of an asset can be published, one that can be speaks for the asset.
pub proof fn law_warm_window_speaks(readings: Seq<(WindowId, FairReading)>, asset: Asset, i: int)
    requires
        0 <= i < readings.len(),
        readings[i].0.series.asset == asset,
        readings[i].1.publishable,
    ensures
        speaking(readings, asset) matches Some(f) && f.publishable,
{
    lemma_first_ready(readings, asset, i);
}

proof fn lemma_first_ready(readings: Seq<(WindowId, FairReading)>, asset: Asset, i: int)
    requires
        0 <= i < readings.len(),
        readings[i].0.series.asset == asset,
        readings[i].1.publishable,
    ensures
        first_reading(readings, asset, true) matches Some(f) && f.publishable,
    decreases readings.len(),
{
    let rest = readings.drop_last();
    lemma_first_can_be_published(rest, asset);
    if i < rest.len() {
        assert(rest[i] == readings[i]);
        lemma_first_ready(rest, asset, i);
    }
}

proof fn lemma_first_can_be_published(readings: Seq<(WindowId, FairReading)>, asset: Asset)
    ensures
        first_reading(readings, asset, true) matches Some(f) ==> f.publishable,
    decreases readings.len(),
{
    if readings.len() > 0 {
        lemma_first_can_be_published(readings.drop_last(), asset);
    }
}

proof fn lemma_stale_did_not_open_last(v: RuntimeModelView, n: int, now_ms: int)
    requires
        0 <= n <= v.markets.len(),
    ensures
        forall|i: int|
            0 <= i < v.stale(n, now_ms).len() ==> {
                let w = #[trigger] v.stale(n, now_ms)[i];
                lookup(v.open, w.series) != Some(w)
            },
    decreases n,
{
    if n > 0 {
        lemma_stale_did_not_open_last(v, n - 1, now_ms);
        let before = v.stale(n - 1, now_ms);
        let all = v.stale(n, now_ms);
        assert forall|i: int| 0 <= i < all.len() implies {
            let w = #[trigger] all[i];
            lookup(v.open, w.series) != Some(w)
        } by {
            if i < before.len() {
                assert(all[i] == before[i]);
            }
        }
    }
}

proof fn lemma_others_stay(v: RuntimeModelView, gone: Seq<WindowId>, window: WindowId)
    requires
        unique_keys(v.priced),
        unique_keys(v.markets),
        unique_keys(v.lifecycles),
        forall|i: int| 0 <= i < gone.len() ==> #[trigger] gone[i] != window,
    ensures
        unique_keys(v.without_all(gone).priced),
        unique_keys(v.without_all(gone).markets),
        unique_keys(v.without_all(gone).lifecycles),
        v.without_all(gone).open == v.open,
        v.without_all(gone).assets == v.assets,
        lookup(v.without_all(gone).priced, window) == lookup(v.priced, window),
        lookup(v.without_all(gone).markets, window) == lookup(v.markets, window),
        lookup(v.without_all(gone).lifecycles, window) == lookup(v.lifecycles, window),
    decreases gone.len(),
{
    if gone.len() > 0 {
        let rest = gone.drop_last();
        assert forall|i: int| 0 <= i < rest.len() implies #[trigger] rest[i] != window by {
            assert(rest[i] == gone[i]);
        }
        lemma_others_stay(v, rest, window);
        let before = v.without_all(rest);
        crate::table::lemma_cut(before.priced, gone.last());
        crate::table::lemma_cut(before.markets, gone.last());
        crate::table::lemma_cut(before.lifecycles, gone.last());
        assert(gone[gone.len() - 1] != window);
    }
}

/// The window of a series that opened last is never let go.
pub proof fn law_open_window_stays(v: RuntimeModelView, window: WindowId, now_ms: int)
    requires
        unique_keys(v.priced),
        unique_keys(v.markets),
        unique_keys(v.lifecycles),
        lookup(v.open, window.series) == Some(window),
    ensures
        ({
            let after = v.without_all(v.stale(v.markets.len() as int, now_ms));
            &&& after.open == v.open
            &&& lookup(after.priced, window) == lookup(v.priced, window)
            &&& lookup(after.markets, window) == lookup(v.markets, window)
            &&& lookup(after.lifecycles, window) == lookup(v.lifecycles, window)
        }),
{
    let gone = v.stale(v.markets.len() as int, now_ms);
    lemma_stale_did_not_open_last(v, v.markets.len() as int, now_ms);
    assert forall|i: int| 0 <= i < gone.len() implies #[trigger] gone[i] != window by {}
    lemma_others_stay(v, gone, window);
}

/// A change of an asset's health is stamped on the readings of that asset's windows, whatever else
/// they say, and on no other.
pub proof fn law_health_is_stamped_by_asset(
    readings: Seq<(WindowId, FairReading)>,
    asset: Asset,
    health: ModelHealth,
    reason: ModelHealthReason,
    i: int,
)
    requires
        0 <= i < readings.len(),
    ensures
        ({
            let after = stamped(readings, asset, health, reason);
            &&& after.len() == readings.len()
            &&& after[i].0 == readings[i].0
            &&& readings[i].0.series.asset != asset ==> after[i] == readings[i]
            &&& readings[i].0.series.asset == asset ==> after[i].1 == (FairReading {
                health,
                reason,
                ..readings[i].1
            })
        }),
{
}

/// What goes out is each reading that can, in order, and nothing else.
pub proof fn law_what_can_be_published_goes_out(readings: Seq<(WindowId, FairReading)>)
    ensures
        publishable(readings) == readings.filter(
            |e: (WindowId, FairReading)| e.1.publishable,
        ).map_values(|e: (WindowId, FairReading)| e.1),
    decreases readings.len(),
{
    reveal(Seq::filter);
    if readings.len() > 0 {
        law_what_can_be_published_goes_out(readings.drop_last());
    }
}

/// Of several readings of one window the last stands.
pub proof fn law_last_reading_of_a_window_stands(readings: Seq<FairReading>, i: int)
    requires
        0 <= i < readings.len(),
        forall|j: int|
            i < j < readings.len() ==> (#[trigger] readings[j]).window != readings[i].window,
    ensures
        unique_keys(by_window(readings)),
        lookup(by_window(readings), readings[i].window) == Some(readings[i]),
    decreases readings.len(),
{
    let rest = readings.drop_last();
    lemma_by_window(rest);
    let before = by_window(rest);
    crate::table::lemma_put(before, readings.last().window, readings.last());
    if i < rest.len() {
        assert forall|j: int| i < j < rest.len() implies (#[trigger] rest[j]).window
            != rest[i].window by {
            assert(rest[j] == readings[j]);
        }
        law_last_reading_of_a_window_stands(rest, i);
        assert(readings[readings.len() - 1].window != readings[i].window);
        assert(lookup(before, readings[i].window) == Some(readings[i]));
    }
}

proof fn lemma_by_window(readings: Seq<FairReading>)
    ensures
        unique_keys(by_window(readings)),
    decreases readings.len(),
{
    if readings.len() > 0 {
        lemma_by_window(readings.drop_last());
        crate::table::lemma_put(
            by_window(readings.drop_last()),
            readings.last().window,
            readings.last(),
        );
    }
}

/// A window is known, and where it stands, from its newest event; it is priced from its first
/// priceable one before it closes; and it is its series' open one from when it opens. No other
/// window and no other series changes.
pub proof fn law_window_is_taken_in(
    v: RuntimeModelView,
    market: MarketInfo,
    lifecycle: WindowLifecycle,
    priceable: bool,
    other: WindowId,
    series: Series,
)
    requires
        unique_keys(v.priced),
        unique_keys(v.markets),
        unique_keys(v.open),
        unique_keys(v.lifecycles),
    ensures
        ({
            let w = market.window;
            let after = v.with_window(market, lifecycle, priceable);
            &&& lookup(after.markets, w) == Some(market)
            &&& lookup(after.lifecycles, w) == Some(lifecycle)
            &&& holds_key(after.priced, w) <==> holds_key(v.priced, w) || (priceable && (
            lifecycle is Discovered || lifecycle is Open))
            &&& lifecycle is Open ==> lookup(after.open, w.series) == Some(w)
            &&& !(lifecycle is Open) ==> after.open == v.open
            &&& series != w.series ==> lookup(after.open, series) == lookup(v.open, series)
            &&& other != w ==> lookup(after.markets, other) == lookup(v.markets, other) && lookup(
                after.lifecycles,
                other,
            ) == lookup(v.lifecycles, other) && lookup(after.priced, other) == lookup(
                v.priced,
                other,
            )
            &&& after.readings == v.readings && after.assets == v.assets
        }),
{
    let w = market.window;
    crate::table::lemma_put(v.priced, w, market);
    crate::table::lemma_put(v.markets, w, market);
    crate::table::lemma_put(v.open, w.series, w);
    crate::table::lemma_put(v.lifecycles, w, lifecycle);
    assert(lookup(v.markets, other) == lookup(v.markets, other));
    assert(lookup(v.lifecycles, other) == lookup(v.lifecycles, other));
    assert(lookup(v.priced, other) == lookup(v.priced, other));
    assert(lookup(v.open, series) == lookup(v.open, series));
    assert(holds_key(put(v.priced, w, market), w));
}

/// The windows that are read are each series' open one, where it is open or closing, is priced and
/// has a model.
pub proof fn law_open_priced_windows_are_read(v: RuntimeModelView)
    ensures
        v.active(v.open.len() as int) == v.open.filter(
            |e: (Series, WindowId)|
                (lookup(v.lifecycles, e.1) == Some(WindowLifecycle::Open) || lookup(
                    v.lifecycles,
                    e.1,
                ) == Some(WindowLifecycle::Closing)) && holds_key(v.assets, e.1.series.asset)
                    && holds_key(v.priced, e.1),
        ).map_values(|e: (Series, WindowId)| e.1),
{
    lemma_active(v, v.open.len() as int);
    assert(v.open.take(v.open.len() as int) == v.open);
}

proof fn lemma_active(v: RuntimeModelView, n: int)
    requires
        0 <= n <= v.open.len(),
    ensures
        v.active(n) == v.open.take(n).filter(
            |e: (Series, WindowId)|
                (lookup(v.lifecycles, e.1) == Some(WindowLifecycle::Open) || lookup(
                    v.lifecycles,
                    e.1,
                ) == Some(WindowLifecycle::Closing)) && holds_key(v.assets, e.1.series.asset)
                    && holds_key(v.priced, e.1),
        ).map_values(|e: (Series, WindowId)| e.1),
    decreases n,
{
    reveal(Seq::filter);
    if n > 0 {
        lemma_active(v, n - 1);
        assert(v.open.take(n).drop_last() == v.open.take(n - 1));
    }
}

/// A price of an asset is fed to each of its windows that are priced, in order, and to no other.
pub proof fn law_prices_are_fed_to_the_asset(v: RuntimeModelView, asset: Asset)
    ensures
        v.fed(asset, v.priced.len() as int) == v.priced.filter(
            |e: (WindowId, MarketInfo)| e.0.series.asset == asset,
        ).map_values(|e: (WindowId, MarketInfo)| e.0),
{
    lemma_fed(v, asset, v.priced.len() as int);
    assert(v.priced.take(v.priced.len() as int) == v.priced);
}

proof fn lemma_fed(v: RuntimeModelView, asset: Asset, n: int)
    requires
        0 <= n <= v.priced.len(),
    ensures
        v.fed(asset, n) == v.priced.take(n).filter(
            |e: (WindowId, MarketInfo)| e.0.series.asset == asset,
        ).map_values(|e: (WindowId, MarketInfo)| e.0),
    decreases n,
{
    reveal(Seq::filter);
    if n > 0 {
        lemma_fed(v, asset, n - 1);
        assert(v.priced.take(n).drop_last() == v.priced.take(n - 1));
    }
}

/// The windows that go are those that closed two hundred seconds ago or more and are not their
/// series' open one, in order.
pub proof fn law_windows_long_closed_go(v: RuntimeModelView, now_ms: int)
    ensures
        v.stale(v.markets.len() as int, now_ms) == v.markets.filter(
            |e: (WindowId, MarketInfo)|
                now_ms - e.1.close_ms >= 200_000 && lookup(v.open, e.1.window.series) != Some(
                    e.1.window,
                ),
        ).map_values(|e: (WindowId, MarketInfo)| e.1.window),
{
    lemma_stale(v, v.markets.len() as int, now_ms);
    assert(v.markets.take(v.markets.len() as int) == v.markets);
}

proof fn lemma_stale(v: RuntimeModelView, n: int, now_ms: int)
    requires
        0 <= n <= v.markets.len(),
    ensures
        v.stale(n, now_ms) == v.markets.take(n).filter(
            |e: (WindowId, MarketInfo)|
                now_ms - e.1.close_ms >= 200_000 && lookup(v.open, e.1.window.series) != Some(
                    e.1.window,
                ),
        ).map_values(|e: (WindowId, MarketInfo)| e.1.window),
    decreases n,
{
    reveal(Seq::filter);
    if n > 0 {
        lemma_stale(v, n - 1, now_ms);
        assert(v.markets.take(n).drop_last() == v.markets.take(n - 1));
    }
}

/// Of a window that goes nothing is left: no price, no market, no standing and no reading.
pub proof fn law_nothing_is_left_of_a_window(v: RuntimeModelView, gone: Seq<WindowId>, k: int)
    requires
        unique_keys(v.priced),
        unique_keys(v.markets),
        unique_keys(v.lifecycles),
        unique_keys(v.readings),
        0 <= k < gone.len(),
    ensures
        ({
            let after = v.without_all(gone);
            &&& lookup(after.priced, gone[k]) is None
            &&& lookup(after.markets, gone[k]) is None
            &&& lookup(after.lifecycles, gone[k]) is None
            &&& lookup(after.readings, gone[k]) is None
            &&& after.open == v.open && after.assets == v.assets
        }),
    decreases gone.len(),
{
    let rest = gone.drop_last();
    let before = v.without_all(rest);
    let w = gone[k];
    lemma_keys_stay_unique(v, rest);
    if k < rest.len() {
        law_nothing_is_left_of_a_window(v, rest, k);
    }
    crate::table::lemma_cut(before.priced, gone.last());
    crate::table::lemma_cut(before.markets, gone.last());
    crate::table::lemma_cut(before.lifecycles, gone.last());
    crate::table::lemma_cut(before.readings, gone.last());
    assert(lookup(before.priced, w) == lookup(before.priced, w));
    assert(lookup(before.markets, w) == lookup(before.markets, w));
    assert(lookup(before.lifecycles, w) == lookup(before.lifecycles, w));
    assert(lookup(before.readings, w) == lookup(before.readings, w));
}

proof fn lemma_keys_stay_unique(v: RuntimeModelView, gone: Seq<WindowId>)
    requires
        unique_keys(v.priced),
        unique_keys(v.markets),
        unique_keys(v.lifecycles),
        unique_keys(v.readings),
    ensures
        unique_keys(v.without_all(gone).priced),
        unique_keys(v.without_all(gone).markets),
        unique_keys(v.without_all(gone).lifecycles),
        unique_keys(v.without_all(gone).readings),
        v.without_all(gone).open == v.open,
        v.without_all(gone).assets == v.assets,
    decreases gone.len(),
{
    if gone.len() > 0 {
        lemma_keys_stay_unique(v, gone.drop_last());
        let before = v.without_all(gone.drop_last());
        crate::table::lemma_cut(before.priced, gone.last());
        crate::table::lemma_cut(before.markets, gone.last());
        crate::table::lemma_cut(before.lifecycles, gone.last());
        crate::table::lemma_cut(before.readings, gone.last());
    }
}

/// The first of an asset's windows whose reading can go out speaks for it; where none can, the
/// first of its windows does.
pub proof fn law_first_window_speaks(readings: Seq<(WindowId, FairReading)>, asset: Asset, i: int)
    requires
        0 <= i < readings.len(),
        readings[i].0.series.asset == asset,
    ensures
        readings[i].1.publishable && (forall|j: int|
            0 <= j < i && (#[trigger] readings[j]).0.series.asset == asset
                ==> !readings[j].1.publishable) ==> speaking(readings, asset) == Some(
            readings[i].1,
        ),
        (forall|j: int|
            0 <= j < readings.len() && (#[trigger] readings[j]).0.series.asset == asset
                ==> !readings[j].1.publishable) && (forall|j: int|
            0 <= j < i ==> (#[trigger] readings[j]).0.series.asset != asset) ==> speaking(
            readings,
            asset,
        ) == Some(readings[i].1),
{
    if readings[i].1.publishable && (forall|j: int|
        0 <= j < i && (#[trigger] readings[j]).0.series.asset == asset
            ==> !readings[j].1.publishable) {
        lemma_first_is(readings, asset, true, i);
    }
    if (forall|j: int|
        0 <= j < readings.len() && (#[trigger] readings[j]).0.series.asset == asset
            ==> !readings[j].1.publishable) && (forall|j: int|
        0 <= j < i ==> (#[trigger] readings[j]).0.series.asset != asset) {
        lemma_first_is(readings, asset, false, i);
        lemma_first_is_none(readings, asset);
    }
}

proof fn lemma_first_is(
    readings: Seq<(WindowId, FairReading)>,
    asset: Asset,
    ready: bool,
    i: int,
)
    requires
        0 <= i < readings.len(),
        readings[i].0.series.asset == asset && (readings[i].1.publishable || !ready),
        forall|j: int|
            0 <= j < i ==> !((#[trigger] readings[j]).0.series.asset == asset && (
            readings[j].1.publishable || !ready)),
    ensures
        first_reading(readings, asset, ready) == Some(readings[i].1),
    decreases readings.len(),
{
    let rest = readings.drop_last();
    if i < rest.len() {
        assert forall|j: int| 0 <= j < i implies !((#[trigger] rest[j]).0.series.asset == asset && (
        rest[j].1.publishable || !ready)) by {
            assert(rest[j] == readings[j]);
        }
        lemma_first_is(rest, asset, ready, i);
    } else {
        assert forall|j: int| 0 <= j < rest.len() implies !((#[trigger] rest[j]).0.series.asset
            == asset && (rest[j].1.publishable || !ready)) by {
            assert(rest[j] == readings[j]);
        }
        lemma_none_is_first(rest, asset, ready);
    }
}

proof fn lemma_none_is_first(readings: Seq<(WindowId, FairReading)>, asset: Asset, ready: bool)
    requires
        forall|j: int|
            0 <= j < readings.len() ==> !((#[trigger] readings[j]).0.series.asset == asset && (
            readings[j].1.publishable || !ready)),
    ensures
        first_reading(readings, asset, ready) is None,
    decreases readings.len(),
{
    if readings.len() > 0 {
        let rest = readings.drop_last();
        assert forall|j: int| 0 <= j < rest.len() implies !((#[trigger] rest[j]).0.series.asset
            == asset && (rest[j].1.publishable || !ready)) by {
            assert(rest[j] == readings[j]);
        }
        lemma_none_is_first(rest, asset, ready);
        assert(readings.last() == readings[readings.len() - 1]);
    }
}

proof fn lemma_first_is_none(readings: Seq<(WindowId, FairReading)>, asset: Asset)
    requires
        forall|j: int|
            0 <= j < readings.len() && (#[trigger] readings[j]).0.series.asset == asset
                ==> !readings[j].1.publishable,
    ensures
        first_reading(readings, asset, true) is None,
{
    lemma_none_is_first(readings, asset, true);
}

} // verus!
