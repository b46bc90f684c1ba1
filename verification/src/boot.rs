//! Restoring state at start-up from what was journaled.

use vstd::prelude::*;

use crate::table::{cut, lookup, put, unique_keys, Table};
use crate::types::{Id, OrderState, OrderUpdate};

verus! {

impl View for OrderUpdate {
    type V = OrderUpdate;

    open spec fn view(&self) -> OrderUpdate {
        *self
    }
}

/// The configured journal.
#[derive(Clone, Debug)]
pub struct JournalConfig {
    /// The directory.
    pub dir: String,
    /// The largest segment, bytes.
    pub max_segment_bytes: u64,
    /// The oldest segment, milliseconds.
    pub max_segment_age_ms: i64,
    /// Records that may wait to be written.
    pub channel_capacity: usize,
    /// The time between flushes, milliseconds.
    pub flush_interval_ms: i64,
    /// The index.
    pub sqlite_path: String,
    /// Whether a flush goes through to the disk.
    pub fsync_on_flush: bool,
    /// How long segments are kept, milliseconds.
    pub retention_max_age_ms: i64,
    /// How many bytes of segments are kept.
    pub retention_max_total_bytes: u64,
}

/// What a recorder goes by.
#[derive(Clone, Debug)]
pub struct RecorderParams {
    /// The directory.
    pub out_dir: String,
    /// The largest segment, bytes.
    pub max_segment_bytes: u64,
    /// The oldest segment, milliseconds.
    pub max_segment_age_ms: i64,
    /// Records that may wait to be written.
    pub channel_capacity: usize,
    /// The time between flushes, milliseconds.
    pub flush_interval_ms: i64,
    /// The index, where there is one.
    pub sqlite_path: Option<String>,
    /// Whether a flush goes through to the disk.
    pub fsync_on_flush: bool,
    /// How long segments are kept, milliseconds.
    pub retention_max_age_ms: i64,
    /// How many bytes of segments are kept.
    pub retention_max_total_bytes: u64,
}

/// What the recorder of a configured journal goes by: the configured values, with an index.
pub fn journal_params(j: &JournalConfig) -> (r: RecorderParams)
    ensures
        r == (RecorderParams {
            out_dir: j.dir,
            max_segment_bytes: j.max_segment_bytes,
            max_segment_age_ms: j.max_segment_age_ms,
            channel_capacity: j.channel_capacity,
            flush_interval_ms: j.flush_interval_ms,
            sqlite_path: Some(j.sqlite_path),
            fsync_on_flush: j.fsync_on_flush,
            retention_max_age_ms: j.retention_max_age_ms,
            retention_max_total_bytes: j.retention_max_total_bytes,
        }),
{
    RecorderParams {
        out_dir: j.dir.clone(),
        max_segment_bytes: j.max_segment_bytes,
        max_segment_age_ms: j.max_segment_age_ms,
        channel_capacity: j.channel_capacity,
        flush_interval_ms: j.flush_interval_ms,
        sqlite_path: Some(j.sqlite_path.clone()),
        fsync_on_flush: j.fsync_on_flush,
        retention_max_age_ms: j.retention_max_age_ms,
        retention_max_total_bytes: j.retention_max_total_bytes,
    }
}

/// Orders by identifier.
pub type Orders = Seq<(Seq<char>, OrderUpdate)>;

/// The orders after one more update: an order that is done goes, any other is kept as last told.
pub open spec fn with_update(s: Orders, u: OrderUpdate) -> Orders {
    if u.state.is_terminal_spec() {
        cut(s, u.order_id@)
    } else {
        put(s, u.order_id@, u)
    }
}

/// The orders after some updates.
pub open spec fn with_updates(s: Orders, updates: Seq<OrderUpdate>) -> Orders
    decreases updates.len(),
{
    if updates.len() == 0 {
        s
    } else {
        with_update(with_updates(s, updates.drop_last()), updates.last())
    }
}

/// The last update of an order.
pub open spec fn last_update(updates: Seq<OrderUpdate>, id: Seq<char>) -> Option<OrderUpdate>
    decreases updates.len(),
{
    if updates.len() == 0 {
        None
    } else if updates.last().order_id@ == id {
        Some(updates.last())
    } else {
        last_update(updates.drop_last(), id)
    }
}

/// After any updates an order is there exactly where the last that was told of it is that it is
/// not done, and as it was told then.
pub proof fn law_only_working_orders_remain(updates: Seq<OrderUpdate>, id: Seq<char>)
    ensures
        unique_keys(with_updates(Seq::empty(), updates)),
        lookup(with_updates(Seq::empty(), updates), id) == match last_update(updates, id) {
            Some(u) => if u.state.is_terminal_spec() {
                None
            } else {
                Some(u)
            },
            None => None,
        },
    decreases updates.len(),
{
    if updates.len() > 0 {
        let u = updates.last();
        let before = with_updates(Seq::empty(), updates.drop_last());
        law_only_working_orders_remain(updates.drop_last(), id);
        crate::table::lemma_put(before, u.order_id@, u);
        crate::table::lemma_cut(before, u.order_id@);
        if u.order_id@ != id {
            let _ = lookup(before, id);
        }
    }
}

/// Our orders that are not done, as last told.
#[derive(Clone, Debug)]
pub struct RebuiltOrders {
    orders: Table<Id, OrderUpdate>,
}

impl View for RebuiltOrders {
    type V = Orders;

    closed spec fn view(&self) -> Orders {
        self.orders@
    }
}

impl RebuiltOrders {
    /// No order.
    pub fn new() -> (r: RebuiltOrders)
        ensures
            r@ == Seq::<(Seq<char>, OrderUpdate)>::empty(),
            unique_keys(r@),
    {
        RebuiltOrders { orders: Table::new() }
    }

    /// Takes an update in.
    pub fn fold(&mut self, update: &OrderUpdate)
        requires
            unique_keys(old(self)@),
        ensures
            unique_keys(final(self)@),
            final(self)@ == with_update(old(self)@, *update),
    {
        if update.state.is_terminal() {
            let _ = self.orders.remove(&update.order_id);
        } else {
            self.orders.insert(update.order_id.duplicate(), update.duplicate());
        }
    }

    /// How many orders are not done.
    pub fn working(&self) -> (r: usize)
        ensures
            r == self@.len(),
    {
        self.orders.len()
    }

    /// Whether an order is among them.
    pub fn contains(&self, id: &Id) -> (r: bool)
        requires
            unique_keys(self@),
        ensures
            r == (lookup(self@, id@) is Some),
    {
        self.orders.contains(id)
    }
}

/// A journaled event, as far as orders go.
#[derive(Clone, Debug)]
pub enum JournalEvent {
    /// An order update.
    Order(OrderUpdate),
    /// Any other event.
    Other,
}

/// The order updates among some events.
pub open spec fn updates_in(events: Seq<JournalEvent>) -> Seq<OrderUpdate>
    decreases events.len(),
{
    if events.len() == 0 {
        Seq::empty()
    } else {
        match events.last() {
            JournalEvent::Order(u) => updates_in(events.drop_last()).push(u),
            JournalEvent::Other => updates_in(events.drop_last()),
        }
    }
}

/// What a journal gives back of our orders.
#[derive(Clone, Debug)]
pub struct RebuiltState {
    /// Our orders that are not done.
    pub orders: RebuiltOrders,
    /// The events that were read.
    pub events: u64,
}

/// What a journal's events give back of our orders.
pub fn rebuild(events: &Vec<JournalEvent>) -> (r: RebuiltState)
    ensures
        r.events == events@.len(),
        r.orders@ == with_updates(Seq::empty(), updates_in(events@)),
        unique_keys(r.orders@),
{
    let mut orders = RebuiltOrders::new();
    let mut i: usize = 0;
    assert(events@.subrange(0, 0) =~= Seq::empty());
    while i < events.len()
        invariant
            i <= events@.len(),
            unique_keys(orders@),
            orders@ == with_updates(Seq::empty(), updates_in(events@.subrange(0, i as int))),
        decreases events.len() - i,
    {
        proof {
            let part = events@.subrange(0, i + 1);
            assert(part.drop_last() =~= events@.subrange(0, i as int));
            assert(part.last() == events@[i as int]);
        }
        if let JournalEvent::Order(u) = &events[i] {
            let ghost before = updates_in(events@.subrange(0, i as int));
            assert(before.push(*u).drop_last() =~= before);
            orders.fold(u);
        }
        i = i + 1;
    }
    assert(events@.subrange(0, i as int) =~= events@);
    RebuiltState { orders, events: events.len() as u64 }
}

/// The updates are those among the events, in order, and none is left out.
pub proof fn law_updates_are_the_order_events(events: Seq<JournalEvent>)
    ensures
        updates_in(events) == events.filter(|e: JournalEvent| e is Order).map_values(
            |e: JournalEvent| e->Order_0,
        ),
    decreases events.len(),
{
    reveal(Seq::filter);
    if events.len() > 0 {
        law_updates_are_the_order_events(events.drop_last());
    }
}

/// An order whose last update says that it was filled, canceled or rejected is gone; any other is
/// there as its last update has it; and one that was never told of is not there.
pub proof fn law_last_update_decides(updates: Seq<OrderUpdate>, id: Seq<char>, i: int)
    ensures
        0 <= i < updates.len() && updates[i].order_id@ == id && (forall|j: int|
            i < j < updates.len() ==> (#[trigger] updates[j]).order_id@ != id) ==> lookup(
            with_updates(Seq::empty(), updates),
            id,
        ) == (if updates[i].state == OrderState::Filled || updates[i].state == OrderState::Canceled
            || updates[i].state == OrderState::Rejected {
            None
        } else {
            Some(updates[i])
        }),
        (forall|j: int| 0 <= j < updates.len() ==> (#[trigger] updates[j]).order_id@ != id)
            ==> lookup(with_updates(Seq::empty(), updates), id) is None,
{
    law_only_working_orders_remain(updates, id);
    lemma_last_update(updates, id, i);
}

proof fn lemma_last_update(updates: Seq<OrderUpdate>, id: Seq<char>, i: int)
    ensures
        0 <= i < updates.len() && updates[i].order_id@ == id && (forall|j: int|
            i < j < updates.len() ==> (#[trigger] updates[j]).order_id@ != id) ==> last_update(
            updates,
            id,
        ) == Some(updates[i]),
        (forall|j: int| 0 <= j < updates.len() ==> (#[trigger] updates[j]).order_id@ != id)
            ==> last_update(updates, id) is None,
    decreases updates.len(),
{
    if updates.len() > 0 {
        let rest = updates.drop_last();
        lemma_last_update(rest, id, i);
        assert(updates.last() == updates[updates.len() - 1]);
        assert(forall|j: int| 0 <= j < rest.len() ==> #[trigger] rest[j] == updates[j]);
    }
}

} // verus!
