use std::collections::{HashMap, VecDeque};
use vstd::prelude::*;

use crate::collections::{map_get_mut, map_keys, same_u16_maps};
use crate::memory::elevator::{
    clone_orders, find_order, first_index, fresh_elevator, order_views, replace_order_at, Behaviour, DeadOrAlive, Elevator,
    ElevatorDirection, ElevatorView, Obstruction,
};
use crate::memory::hall_order_queue::{
    keyed_by_id, managed_orders, ready_for_removal, removed_ids, status_step, lemma_order_map_views_insert_any, order_map_views, HallOrderQueue,
    HallOrderQueueView,
};
use crate::memory::orders::{contains_id, merge_barrier, order_status_rank, status_rank, Order, OrderStatus, OrderView};

verus! {

broadcast use vstd::std_specs::hash::group_hash_axioms;

/// A change to the shared state asked for by this elevator's own threads.
#[derive(Debug)]
pub enum MemoryCommand {
    ElevatorStatus(ElevatorStatusCommand),
    HallOrderQueue(HallOrderQueueCommand),
}

/// A change to one elevator's record, or a world view received from a peer.
#[derive(Debug)]
pub enum ElevatorStatusCommand {
    SetDeadOrAlive { elevator_id: u16, dead_or_alive: DeadOrAlive },
    SetBehaviour { elevator_id: u16, behavior: Behaviour },
    SetObstruction { elevator_id: u16, obstruction: Obstruction },
    SetFloor { elevator_id: u16, floor: u8 },
    SetDirection { elevator_id: u16, dir: ElevatorDirection },
    SetCabOrders { elevator_id: u16, orders: VecDeque<Order> },
    AddCabOrder { elevator_id: u16, order: Order },
    RemoveCabOrder { elevator_id: u16 },
    SetCabOrderStatus { elevator_id: u16, order_id: u16, status: OrderStatus },
    SynchronizeWorldView { world_view: WorldView },
}

/// A change to the hall order queue.
#[derive(Debug)]
pub enum HallOrderQueueCommand {
    AddToHallOrderQueue { order: Order },
    RemoveFromHallOrderQueue { order_id: u16 },
    SetHallOrderStatus { order_id: u16, status: OrderStatus },
    SetAckBarrier { order_id: u16, barrier: Vec<u16> },
    InsertIntoAckBarrier { order_id: u16, elevator_id: u16 },
}

/// The views of a map of elevator records.
pub open spec fn elevator_map_views(m: Map<u16, Elevator>) -> Map<u16, ElevatorView> {
    m.map_values(|e: Elevator| e@)
}

/// Viewing commutes with filing any record under any key.
pub proof fn lemma_elevator_map_views_insert_any(m: Map<u16, Elevator>)
    ensures
        forall|k: u16, e: Elevator|
            #[trigger] elevator_map_views(m.insert(k, e)) == elevator_map_views(m).insert(k, e@),
{
    assert forall|k: u16, e: Elevator|
        #[trigger] elevator_map_views(m.insert(k, e)) == elevator_map_views(m).insert(k, e@) by {
        assert(elevator_map_views(m.insert(k, e)) =~= elevator_map_views(m).insert(k, e@));
    }
}

/// The counter recorded for `id`, zero when none is.
pub open spec fn counter_of(counters: Map<u16, u16>, id: u16) -> u16 {
    if counters.contains_key(id) {
        counters[id]
    } else {
        0
    }
}

/// How far `incoming` is ahead of `recorded`, counting modulo 2^16.
pub open spec fn counter_gap(incoming: u16, recorded: u16) -> int {
    if incoming >= recorded {
        incoming - recorded
    } else {
        incoming - recorded + 0x10000
    }
}

/// Whether a write counter of `incoming` is newer than `recorded`: ahead by
/// less than half the counter range, and, unless this elevator has been
/// restarted, by at least one.
pub open spec fn counter_is_newer(incoming: u16, recorded: u16, me_resurrected: bool) -> bool {
    let gap = counter_gap(incoming, recorded);
    if me_resurrected {
        gap < 0x8000
    } else {
        gap != 0 && gap < 0x8000
    }
}

/// Whether the incoming counters hold a newer counter for `id` than `mine`.
pub open spec fn newer_in(
    mine: Map<u16, u16>,
    incoming: Map<u16, u16>,
    id: u16,
    me_resurrected: bool,
) -> bool {
    incoming.contains_key(id) && counter_is_newer(incoming[id], counter_of(mine, id), me_resurrected)
}

/// The shared state as one elevator sees it, as plain values.
pub struct WorldViewState {
    pub my_id: u16,
    pub my_session_id: u16,
    pub elevators: Map<u16, ElevatorView>,
    pub hall: HallOrderQueueView,
    /// Last write counter seen from each elevator.
    pub write_counters: Map<u16, u16>,
    /// Last session identifier seen from each elevator.
    pub session_ids: Map<u16, u16>,
}

impl WorldViewState {
    /// The own elevator has a record, and every hall order is filed under its
    /// identifier.
    pub open spec fn wf(self) -> bool {
        &&& self.elevators.contains_key(self.my_id)
        &&& keyed_by_id(self.hall.orders)
    }

    /// The same picture with other records.
    pub open spec fn with_elevators(self, elevators: Map<u16, ElevatorView>) -> WorldViewState {
        WorldViewState { elevators, ..self }
    }

    /// The same picture with the record of `id` replaced or added.
    pub open spec fn with_elevator(self, id: u16, e: ElevatorView) -> WorldViewState {
        WorldViewState { elevators: self.elevators.insert(id, e), ..self }
    }

    /// The same picture with another hall order queue.
    pub open spec fn with_hall(self, hall: HallOrderQueueView) -> WorldViewState {
        WorldViewState { hall, ..self }
    }

    /// The same picture with other hall orders.
    pub open spec fn with_hall_orders(self, orders: Map<u16, OrderView>) -> WorldViewState {
        WorldViewState { hall: HallOrderQueueView { orders, ..self.hall }, ..self }
    }

    /// The same picture with other write counters.
    pub open spec fn with_write_counters(self, write_counters: Map<u16, u16>) -> WorldViewState {
        WorldViewState { write_counters, ..self }
    }
}

/// The cab orders of an elevator after the first order with identifier
/// `order_id` gets status `status` and an acknowledgement by `my_id`.
pub open spec fn cab_orders_with_status(
    orders: Seq<OrderView>,
    order_id: u16,
    status: OrderStatus,
    my_id: u16,
) -> Seq<OrderView> {
    match first_index(orders, order_id) {
        Some(i) => orders.update(i, orders[i].with_status(status).with_ack(my_id)),
        None => orders,
    }
}

/// The counter that follows `c`, wrapping from the largest value to zero.
pub open spec fn next_counter(c: u16) -> u16 {
    if c == 0xffff {
        0
    } else {
        (c + 1) as u16
    }
}

/// The counters with a zero counter for `id` added when `incoming` has a
/// counter for `id` and `counters` has none: what looking up whether the
/// incoming counter of `id` is newer leaves behind.
pub open spec fn counters_after_lookup(
    counters: Map<u16, u16>,
    incoming: Map<u16, u16>,
    id: u16,
) -> Map<u16, u16> {
    if incoming.contains_key(id) && !counters.contains_key(id) {
        counters.insert(id, 0)
    } else {
        counters
    }
}

/// The counters after taking over, for every elevator with a newer incoming
/// counter, that counter (unless the sender has been restarted); every
/// elevator of `incoming` gets a counter, zero when it had none.
pub open spec fn updated_counters(
    counters: Map<u16, u16>,
    incoming: Map<u16, u16>,
    me_resurrected: bool,
    other_resurrected: bool,
) -> Map<u16, u16> {
    Map::new(
        |k: u16| counters.contains_key(k) || incoming.contains_key(k),
        |k: u16|
            if !other_resurrected && newer_in(counters, incoming, k, me_resurrected) {
                incoming[k]
            } else {
                counter_of(counters, k)
            },
    )
}

/// Whether the incoming order `k` replaces this elevator's copy: it is not
/// pending clean-up, and this elevator has no copy or one with an earlier
/// status.
pub open spec fn takes_incoming_order(
    mine: Map<u16, OrderView>,
    pending: Set<u16>,
    incoming: Map<u16, OrderView>,
    k: u16,
) -> bool {
    &&& incoming.contains_key(k)
    &&& !pending.contains(k)
    &&& (!mine.contains_key(k) || status_rank(incoming[k].order_status) > status_rank(
        mine[k].order_status,
    ))
}

/// The hall orders after taking over the incoming orders that
/// `takes_incoming_order` admits, each with `my_id` added to its barrier.
pub open spec fn taken_hall_orders(
    mine: Map<u16, OrderView>,
    pending: Set<u16>,
    incoming: Map<u16, OrderView>,
    my_id: u16,
) -> Map<u16, OrderView> {
    Map::new(
        |k: u16| mine.contains_key(k) || (incoming.contains_key(k) && !pending.contains(k)),
        |k: u16|
            if takes_incoming_order(mine, pending, incoming, k) {
                incoming[k].with_barrier(incoming[k].ack_barrier.push(my_id))
            } else {
                mine[k]
            },
    )
}

/// The hall orders after adding to each the acknowledgements that the
/// incoming copy of the same order holds.
pub open spec fn hall_acks_merged(
    mine: Map<u16, OrderView>,
    incoming: Map<u16, OrderView>,
) -> Map<u16, OrderView> {
    Map::new(
        |k: u16| mine.contains_key(k),
        |k: u16|
            if incoming.contains_key(k) {
                mine[k].with_barrier(merge_barrier(mine[k].ack_barrier, incoming[k].ack_barrier))
            } else {
                mine[k]
            },
    )
}

/// The orders after adding `id` to the barrier of the first order with
/// identifier `order_id`, whether or not it is there already.
pub open spec fn push_ack_first(orders: Seq<OrderView>, order_id: u16, id: u16) -> Seq<OrderView> {
    match first_index(orders, order_id) {
        Some(i) => orders.update(i, orders[i].with_barrier(orders[i].ack_barrier.push(id))),
        None => orders,
    }
}

/// The local copies of cab orders after, for each incoming order (in
/// queue order) that `my_id` has not acknowledged, adding `my_id` to the
/// barrier of the first local order with the same identifier.
pub open spec fn ack_unacknowledged(
    local: Seq<OrderView>,
    incoming: Seq<OrderView>,
    my_id: u16,
) -> Seq<OrderView>
    decreases incoming.len(),
{
    if incoming.len() == 0 {
        local
    } else {
        let prev = ack_unacknowledged(local, incoming.drop_last(), my_id);
        let o = incoming.last();
        if o.ack_barrier.contains(my_id) {
            prev
        } else {
            push_ack_first(prev, o.order_id, my_id)
        }
    }
}

/// The orders after merging `barrier` into the barrier of the first order
/// with identifier `order_id`.
pub open spec fn merge_ack_first(orders: Seq<OrderView>, order_id: u16, barrier: Seq<u16>) -> Seq<
    OrderView,
> {
    match first_index(orders, order_id) {
        Some(i) => orders.update(i, orders[i].with_barrier(merge_barrier(orders[i].ack_barrier, barrier))),
        None => orders,
    }
}

/// The local cab orders after merging into the first local order with the
/// same identifier the barrier of each incoming order, in queue order.
pub open spec fn merge_cab_acks(local: Seq<OrderView>, incoming: Seq<OrderView>) -> Seq<OrderView>
    decreases incoming.len(),
{
    if incoming.len() == 0 {
        local
    } else {
        merge_ack_first(
            merge_cab_acks(local, incoming.drop_last()),
            incoming.last().order_id,
            incoming.last().ack_barrier,
        )
    }
}

/// An order's identifier at every position is kept by adding
/// acknowledgements.
pub proof fn lemma_ack_unacknowledged_ids(local: Seq<OrderView>, incoming: Seq<OrderView>, my_id: u16)
    ensures
        ack_unacknowledged(local, incoming, my_id).len() == local.len(),
        forall|j: int|
            0 <= j < local.len() ==> #[trigger] ack_unacknowledged(local, incoming, my_id)[j].order_id
                == local[j].order_id,
    decreases incoming.len(),
{
    if incoming.len() > 0 {
        lemma_ack_unacknowledged_ids(local, incoming.drop_last(), my_id);
        let prev = ack_unacknowledged(local, incoming.drop_last(), my_id);
        crate::memory::elevator::lemma_first_index(prev, incoming.last().order_id);
    }
}

/// When every incoming order is acknowledged by `my_id` already, nothing
/// changes.
pub proof fn lemma_ack_unacknowledged_all_acked(
    local: Seq<OrderView>,
    incoming: Seq<OrderView>,
    my_id: u16,
)
    requires
        forall|j: int| 0 <= j < incoming.len() ==> #[trigger] incoming[j].ack_barrier.contains(my_id),
    ensures
        ack_unacknowledged(local, incoming, my_id) == local,
    decreases incoming.len(),
{
    if incoming.len() > 0 {
        let d = incoming.drop_last();
        assert forall|j: int| 0 <= j < d.len() implies #[trigger] d[j].ack_barrier.contains(my_id) by {
            assert(d[j] == incoming[j]);
        }
        lemma_ack_unacknowledged_all_acked(local, d, my_id);
        assert(incoming[incoming.len() - 1].ack_barrier.contains(my_id));
    }
}

/// Whether a write counter `incoming` is newer than `recorded` (see
/// `counter_is_newer`).
pub fn counter_newer(incoming: u16, recorded: u16, me_resurrected: bool) -> (newer: bool)
    ensures
        newer == counter_is_newer(incoming, recorded, me_resurrected),
{
    let version_control = incoming.wrapping_sub(recorded);
    if me_resurrected {
        version_control < 0x8000
    } else {
        version_control != 0 && version_control < 0x8000
    }
}

/// Adds `my_id`, as `ack_unacknowledged` says, to the local copies of the
/// given incoming cab orders.
fn acknowledge_unacknowledged(orders: &mut VecDeque<Order>, incoming: &VecDeque<Order>, my_id: u16)
    ensures
        order_views(final(orders)@) == ack_unacknowledged(
            order_views(old(orders)@),
            order_views(incoming@),
            my_id,
        ),
{
    let ghost start = order_views(orders@);
    let ghost inc = order_views(incoming@);
    let mut j: usize = 0;
    while j < incoming.len()
        invariant
            j <= incoming.len(),
            inc == order_views(incoming@),
            order_views(orders@) == ack_unacknowledged(start, inc.take(j as int), my_id),
        decreases incoming.len() - j,
    {
        let o = &incoming[j];
        proof {
            assert(inc.take(j + 1).drop_last() =~= inc.take(j as int));
            assert(inc.take(j + 1).last() == o@);
        }
        if !contains_id(o.get_ack_barrier(), my_id) {
            match find_order(orders, *o.get_order_id()) {
                Some(i) => {
                    let mut x = orders[i].clone();
                    x.insert_into_ack_barrier(my_id);
                    replace_order_at(orders, i, x);
                },
                None => {},
            }
        }
        j += 1;
    }
    assert(inc.take(incoming.len() as int) =~= inc);
}

/// Merges, as `merge_cab_acks` says, the barriers of the given incoming cab
/// orders into the local copies.
fn merge_cab_order_acks(orders: &mut VecDeque<Order>, incoming: &VecDeque<Order>)
    ensures
        order_views(final(orders)@) == merge_cab_acks(order_views(old(orders)@), order_views(incoming@)),
{
    let ghost start = order_views(orders@);
    let ghost inc = order_views(incoming@);
    let mut j: usize = 0;
    while j < incoming.len()
        invariant
            j <= incoming.len(),
            inc == order_views(incoming@),
            order_views(orders@) == merge_cab_acks(start, inc.take(j as int)),
        decreases incoming.len() - j,
    {
        let o = &incoming[j];
        proof {
            assert(inc.take(j + 1).drop_last() =~= inc.take(j as int));
            assert(inc.take(j + 1).last() == o@);
        }
        match find_order(orders, *o.get_order_id()) {
            Some(i) => {
                let mut x = orders[i].clone();
                x.merge_ack_barrier(o.get_ack_barrier());
                replace_order_at(orders, i, x);
            },
            None => {},
        }
        j += 1;
    }
    assert(inc.take(incoming.len() as int) =~= inc);
}

/// An elevator record with the incoming orders that `my_id` has not
/// acknowledged acknowledged on their local copies.
pub open spec fn acknowledged_copy(local: ElevatorView, incoming: ElevatorView, my_id: u16) -> ElevatorView {
    local.with_cab_orders(ack_unacknowledged(local.cab_orders, incoming.cab_orders, my_id))
}

/// The records after merging, into this elevator's own cab orders, the
/// acknowledgements that the incoming copy of this elevator's record holds.
pub open spec fn with_merged_my_acks(
    elevators: Map<u16, ElevatorView>,
    incoming: Map<u16, ElevatorView>,
    my_id: u16,
) -> Map<u16, ElevatorView> {
    if incoming.contains_key(my_id) {
        elevators.insert(
            my_id,
            elevators[my_id].with_cab_orders(
                merge_cab_acks(elevators[my_id].cab_orders, incoming[my_id].cab_orders),
            ),
        )
    } else {
        elevators
    }
}

/// Whether some incoming cab order of `id` lacks `my_id`'s acknowledgement.
pub open spec fn has_unacknowledged(incoming: WorldViewState, id: u16, my_id: u16) -> bool {
    incoming.elevators.contains_key(id) && exists|j: int|
        0 <= j < incoming.elevators[id].cab_orders.len()
            && !(#[trigger] incoming.elevators[id].cab_orders[j]).ack_barrier.contains(my_id)
}

/// Whether the sender of `incoming` has restarted since this elevator last
/// recorded its session.
pub open spec fn incoming_resurrected(s: WorldViewState, incoming: WorldViewState) -> bool {
    s.session_ids.contains_key(incoming.my_id) && s.session_ids[incoming.my_id]
        != incoming.my_session_id
}

/// Whether the sender of `incoming` recorded an earlier session of this
/// elevator, that is whether this elevator has restarted since.
pub open spec fn me_resurrected(s: WorldViewState, incoming: WorldViewState) -> bool {
    incoming.session_ids.contains_key(s.my_id) && incoming.session_ids[s.my_id] != s.my_session_id
}

/// The elevators whose records a merge looks at: each one the sender has a
/// session for, this elevator itself only when it has been restarted.
pub open spec fn considered(incoming: WorldViewState, my_id: u16, me_res: bool, id: u16) -> bool {
    incoming.session_ids.contains_key(id) && !(id == my_id && !me_res)
}

/// The counters after recording, for each considered elevator without a
/// counter here, the sender's counter (zero when it has none).
pub open spec fn counters_with_new(
    counters: Map<u16, u16>,
    incoming: WorldViewState,
    my_id: u16,
    me_res: bool,
) -> Map<u16, u16> {
    Map::new(
        |k: u16| counters.contains_key(k) || considered(incoming, my_id, me_res, k),
        |k: u16|
            if counters.contains_key(k) {
                counters[k]
            } else {
                counter_of(incoming.write_counters, k)
            },
    )
}

/// Whether a merge takes over the sender's record of `id`: the elevator is
/// considered, the sender has not been restarted and its counter for `id`
/// is newer.
pub open spec fn adopted(
    counters: Map<u16, u16>,
    incoming: WorldViewState,
    my_id: u16,
    me_res: bool,
    inc_res: bool,
    id: u16,
) -> bool {
    &&& considered(incoming, my_id, me_res, id)
    &&& !inc_res
    &&& newer_in(counters, incoming.write_counters, id, me_res)
}

/// A stored record with the car state and the cab orders of the incoming
/// record; identifier and session stay those of the stored record.
pub open spec fn adopt_elevator(stored: ElevatorView, incoming: ElevatorView) -> ElevatorView {
    ElevatorView {
        dead_or_alive: incoming.dead_or_alive,
        behaviour: incoming.behaviour,
        obstruction: incoming.obstruction,
        floor: incoming.floor,
        direction: incoming.direction,
        cab_orders: incoming.cab_orders,
        ..stored
    }
}

/// The records after taking over every adopted incoming record (into the
/// stored one, or as a new record), with this elevator's acknowledgement
/// added to the cab orders it has not acknowledged.
pub open spec fn adopted_elevators(
    elevators: Map<u16, ElevatorView>,
    counters: Map<u16, u16>,
    incoming: WorldViewState,
    my_id: u16,
    me_res: bool,
    inc_res: bool,
) -> Map<u16, ElevatorView> {
    Map::new(
        |k: u16| elevators.contains_key(k) || adopted(counters, incoming, my_id, me_res, inc_res, k),
        |k: u16|
            if adopted(counters, incoming, my_id, me_res, inc_res, k) {
                let stored = if elevators.contains_key(k) {
                    elevators[k]
                } else {
                    incoming.elevators[k]
                };
                acknowledged_copy(
                    adopt_elevator(stored, incoming.elevators[k]),
                    incoming.elevators[k],
                    my_id,
                )
            } else {
                elevators[k]
            },
    )
}

/// The records after a merge: the adopted records, and, when any record was
/// adopted, this elevator's cab orders with the acknowledgements of the
/// sender's copy of them.
pub open spec fn merged_elevators(
    elevators: Map<u16, ElevatorView>,
    counters: Map<u16, u16>,
    incoming: WorldViewState,
    my_id: u16,
    me_res: bool,
    inc_res: bool,
) -> Map<u16, ElevatorView> {
    let adopted_map = adopted_elevators(elevators, counters, incoming, my_id, me_res, inc_res);
    if exists|k: u16| adopted(counters, incoming, my_id, me_res, inc_res, k) {
        with_merged_my_acks(adopted_map, incoming.elevators, my_id)
    } else {
        adopted_map
    }
}

/// Whether the sender's picture is newer as a whole: it has not been
/// restarted and its own write counter is newer.
pub open spec fn sender_newer(s: WorldViewState, incoming: WorldViewState) -> bool {
    let me_res = me_resurrected(s, incoming);
    let counters = counters_with_new(s.write_counters, incoming, s.my_id, me_res);
    !incoming_resurrected(s, incoming) && newer_in(
        counters,
        incoming.write_counters,
        incoming.my_id,
        me_res,
    )
}

/// The hall orders after a merge.
pub open spec fn synced_hall_orders(s: WorldViewState, incoming: WorldViewState) -> Map<u16, OrderView> {
    if sender_newer(s, incoming) {
        hall_acks_merged(
            taken_hall_orders(
                s.hall.orders,
                s.hall.pending_cleanup,
                incoming.hall.orders,
                s.my_id,
            ),
            incoming.hall.orders,
        )
    } else {
        s.hall.orders
    }
}

/// The write counters after a merge: new elevators recorded, newer counters
/// taken over, and the own counter stepped on by one.
pub open spec fn synced_counters(s: WorldViewState, incoming: WorldViewState) -> Map<u16, u16> {
    let me_res = me_resurrected(s, incoming);
    let inc_res = incoming_resurrected(s, incoming);
    let with_new = counters_with_new(s.write_counters, incoming, s.my_id, me_res);
    let looked_up = counters_after_lookup(with_new, incoming.write_counters, incoming.my_id);
    let updated = updated_counters(looked_up, incoming.write_counters, me_res, inc_res);
    updated.insert(s.my_id, next_counter(counter_of(updated, s.my_id)))
}

/// This elevator's picture after merging the picture `incoming` of a peer.
pub open spec fn sync_result(s: WorldViewState, incoming: WorldViewState) -> WorldViewState {
    let me_res = me_resurrected(s, incoming);
    let inc_res = incoming_resurrected(s, incoming);
    let with_new = counters_with_new(s.write_counters, incoming, s.my_id, me_res);
    WorldViewState {
        elevators: merged_elevators(s.elevators, with_new, incoming, s.my_id, me_res, inc_res),
        hall: HallOrderQueueView {
            orders: synced_hall_orders(s, incoming),
            pending_cleanup: s.hall.pending_cleanup,
        },
        write_counters: synced_counters(s, incoming),
        session_ids: s.session_ids.insert(incoming.my_id, incoming.my_session_id),
        ..s
    }
}

/// The pictures that a merge accepts: this one well formed, the incoming one
/// with its hall orders filed under their identifiers, and the sender has a
/// record of every elevator whose record the merge takes over.
///
/// The incoming picture may lack its sender's own record; its hall orders
/// must be filed under their identifiers. Every picture that a controller
/// starts with `WorldView::new` and changes only by accepted edits and merges
/// is so (`law_commands_keep_well_formed`), so only a picture from outside
/// the group can fail this. It is refused because the merge of
/// acknowledgements looks each incoming order up by its own identifier,
/// walking the sender's map: with two incoming orders of one identifier the
/// merged barrier would depend on the order of that walk. A missing record of
/// an elevator to take over has nothing to take over from.
pub open spec fn sync_allowed(s: WorldViewState, incoming: WorldViewState) -> bool {
    let me_res = me_resurrected(s, incoming);
    let inc_res = incoming_resurrected(s, incoming);
    let with_new = counters_with_new(s.write_counters, incoming, s.my_id, me_res);
    &&& s.wf()
    &&& keyed_by_id(incoming.hall.orders)
    &&& forall|k: u16|
        #[trigger] adopted(with_new, incoming, s.my_id, me_res, inc_res, k)
            ==> incoming.elevators.contains_key(k)
}

/// The cab orders after one pass of the status manager with `n` elevators
/// taking part: each order moves on as `status_step` says, and every order
/// equal (barrier included) to one that all elevators have acknowledged as
/// ready for deletion is dropped.
pub open spec fn managed_cab_orders(orders: Seq<OrderView>, n: nat) -> Seq<OrderView> {
    let removed = orders.filter(ready_fn(n));
    orders.map_values(step_fn(n)).filter(not_in_fn(removed))
}

/// `status_step` with `n` elevators, as a function value.
pub open spec fn step_fn(n: nat) -> spec_fn(OrderView) -> OrderView {
    |o: OrderView| status_step(o, n)
}

/// `ready_for_removal` with `n` elevators, as a function value.
pub open spec fn ready_fn(n: nat) -> spec_fn(OrderView) -> bool {
    |o: OrderView| ready_for_removal(o, n)
}

/// Whether an order is not among `removed`, as a function value.
pub open spec fn not_in_fn(removed: Seq<OrderView>) -> spec_fn(OrderView) -> bool {
    |o: OrderView| !removed.contains(o)
}

/// Number of elevators recorded as alive.
pub open spec fn alive_count(elevators: Map<u16, ElevatorView>) -> nat {
    elevators.dom().filter(alive_fn(elevators)).len()
}

/// Whether the record of `k` says alive, as a function value.
pub open spec fn alive_fn(elevators: Map<u16, ElevatorView>) -> spec_fn(u16) -> bool {
    |k: u16| elevators[k].dead_or_alive == DeadOrAlive::Alive
}

/// The number of elevators the status managers wait for: those recorded as
/// alive, and at least one.
pub open spec fn participants(elevators: Map<u16, ElevatorView>) -> nat {
    if alive_count(elevators) == 0 {
        1
    } else {
        alive_count(elevators)
    }
}

/// The picture after one pass of both status managers with
/// `participants` elevators taking part.
pub open spec fn maintained(s: WorldViewState) -> WorldViewState {
    let n = participants(s.elevators);
    let hall = HallOrderQueueView {
        orders: managed_orders(s.hall.orders, n),
        pending_cleanup: s.hall.pending_cleanup + removed_ids(s.hall.orders, n),
    };
    s.with_hall(hall).with_elevator(
        s.my_id,
        s.elevators[s.my_id].with_cab_orders(managed_cab_orders(s.elevators[s.my_id].cab_orders, n)),
    )
}

/// What a change to the hall order queue does.
pub open spec fn hall_command_result(s: WorldViewState, c: HallOrderQueueCommand) -> WorldViewState {
    let orders = s.hall.orders;
    match c {
        HallOrderQueueCommand::AddToHallOrderQueue { order } => s.with_hall_orders(
            orders.insert(order@.order_id, order@.with_ack(s.my_id)),
        ),
        HallOrderQueueCommand::RemoveFromHallOrderQueue { order_id } => s.with_hall_orders(
            orders.remove(order_id),
        ),
        HallOrderQueueCommand::SetHallOrderStatus { order_id, status } => s.with_hall_orders(
            if orders.contains_key(order_id) {
                orders.insert(order_id, orders[order_id].with_status(status).with_ack(s.my_id))
            } else {
                orders
            },
        ),
        HallOrderQueueCommand::SetAckBarrier { order_id, barrier } => s.with_hall_orders(
            if orders.contains_key(order_id) {
                orders.insert(order_id, orders[order_id].with_barrier(barrier@))
            } else {
                orders
            },
        ),
        HallOrderQueueCommand::InsertIntoAckBarrier { order_id, elevator_id } => s.with_hall_orders(
            if orders.contains_key(order_id) {
                orders.insert(
                    order_id,
                    orders[order_id].with_barrier(orders[order_id].ack_barrier.push(elevator_id)),
                )
            } else {
                orders
            },
        ),
    }
}

/// The elevator a change to one elevator's record is about.
pub open spec fn command_target(c: ElevatorStatusCommand) -> Option<u16> {
    match c {
        ElevatorStatusCommand::SetDeadOrAlive { elevator_id, .. } => Some(elevator_id),
        ElevatorStatusCommand::SetBehaviour { elevator_id, .. } => Some(elevator_id),
        ElevatorStatusCommand::SetObstruction { elevator_id, .. } => Some(elevator_id),
        ElevatorStatusCommand::SetFloor { elevator_id, .. } => Some(elevator_id),
        ElevatorStatusCommand::SetDirection { elevator_id, .. } => Some(elevator_id),
        ElevatorStatusCommand::SetCabOrders { elevator_id, .. } => Some(elevator_id),
        ElevatorStatusCommand::AddCabOrder { elevator_id, .. } => Some(elevator_id),
        ElevatorStatusCommand::RemoveCabOrder { elevator_id } => Some(elevator_id),
        ElevatorStatusCommand::SetCabOrderStatus { elevator_id, .. } => Some(elevator_id),
        ElevatorStatusCommand::SynchronizeWorldView { .. } => None,
    }
}

/// The commands that `edit_elevator_status` accepts: one about an elevator
/// with a record, or a merge that `sync_allowed` admits.
pub open spec fn elevator_command_allowed(s: WorldViewState, c: ElevatorStatusCommand) -> bool {
    match c {
        ElevatorStatusCommand::SynchronizeWorldView { world_view } => sync_allowed(s, world_view@),
        _ => s.elevators.contains_key(command_target(c)->0),
    }
}

/// What a change to one elevator's record, or a merge, does.
pub open spec fn elevator_command_result(s: WorldViewState, c: ElevatorStatusCommand) -> WorldViewState {
    match c {
        ElevatorStatusCommand::SetDeadOrAlive { elevator_id, dead_or_alive } => s.with_elevator(
            elevator_id,
            ElevatorView { dead_or_alive, ..s.elevators[elevator_id] },
        ),
        ElevatorStatusCommand::SetBehaviour { elevator_id, behavior } => s.with_elevator(
            elevator_id,
            ElevatorView { behaviour: behavior, ..s.elevators[elevator_id] },
        ),
        ElevatorStatusCommand::SetObstruction { elevator_id, obstruction } => s.with_elevator(
            elevator_id,
            ElevatorView { obstruction, ..s.elevators[elevator_id] },
        ),
        ElevatorStatusCommand::SetFloor { elevator_id, floor } => s.with_elevator(
            elevator_id,
            ElevatorView { floor, ..s.elevators[elevator_id] },
        ),
        ElevatorStatusCommand::SetDirection { elevator_id, dir } => s.with_elevator(
            elevator_id,
            ElevatorView { direction: dir, ..s.elevators[elevator_id] },
        ),
        ElevatorStatusCommand::SetCabOrders { elevator_id, orders } => s.with_elevator(
            elevator_id,
            s.elevators[elevator_id].with_cab_orders(order_views(orders@)),
        ),
        ElevatorStatusCommand::AddCabOrder { elevator_id, order } => s.with_elevator(
            elevator_id,
            s.elevators[elevator_id].with_cab_orders(
                s.elevators[elevator_id].cab_orders.push(order@.with_ack(s.my_id)),
            ),
        ),
        ElevatorStatusCommand::RemoveCabOrder { elevator_id } => s.with_elevator(
            elevator_id,
            s.elevators[elevator_id].with_cab_orders(
                if s.elevators[elevator_id].cab_orders.len() == 0 {
                    s.elevators[elevator_id].cab_orders
                } else {
                    s.elevators[elevator_id].cab_orders.drop_first()
                },
            ),
        ),
        ElevatorStatusCommand::SetCabOrderStatus { elevator_id, order_id, status } => s.with_elevator(
            elevator_id,
            s.elevators[elevator_id].with_cab_orders(
                cab_orders_with_status(s.elevators[elevator_id].cab_orders, order_id, status, s.my_id),
            ),
        ),
        ElevatorStatusCommand::SynchronizeWorldView { world_view } => sync_result(s, world_view@),
    }
}

/// Filtering a sequence without duplicates counts as filtering its set.
pub proof fn lemma_filter_len_to_set(s: Seq<u16>, p: spec_fn(u16) -> bool)
    requires
        s.no_duplicates(),
    ensures
        s.filter(p).len() == s.to_set().filter(p).len(),
    decreases s.len(),
{
    if s.len() == 0 {
        assert(s.filter(p) =~= Seq::<u16>::empty());
        assert(s.to_set().filter(p) =~= Set::<u16>::empty());
    } else {
        let t = s.drop_last();
        let x = s.last();
        assert(s =~= t.push(x));
        lemma_filter_len_to_set(t, p);
        t.lemma_filter_push(x, p);
        t.lemma_push_to_set_commute(x);
        assert(!t.contains(x)) by {
            if t.contains(x) {
                let j = choose|j: int| 0 <= j < t.len() && t[j] == x;
                assert(s[j] == s[s.len() - 1]);
            }
        }
        assert(!t.to_set().contains(x));
        vstd::seq_lib::seq_to_set_is_finite(t);
        if p(x) {
            assert(s.to_set().filter(p) =~= t.to_set().filter(p).insert(x));
        } else {
            assert(s.to_set().filter(p) =~= t.to_set().filter(p));
        }
    }
}

/// The picture of a freshly started elevator (see `WorldView::new`).
pub open spec fn fresh_world_view(my_id: u16, my_session_id: u16) -> WorldViewState {
    WorldViewState {
        my_id,
        my_session_id,
        elevators: Map::<u16, ElevatorView>::empty().insert(my_id, fresh_elevator(my_id, my_session_id)),
        hall: HallOrderQueueView {
            orders: Map::<u16, OrderView>::empty(),
            pending_cleanup: Set::<u16>::empty(),
        },
        write_counters: Map::<u16, u16>::empty().insert(my_id, 0),
        session_ids: Map::<u16, u16>::empty().insert(my_id, my_session_id),
    }
}

/// One elevator's picture of the whole group: every elevator's record, the
/// hall orders, and the counters used to merge pictures received from peers.
#[derive(Debug, PartialEq, Eq)]
pub struct WorldView {
    my_elevator_id: u16,
    my_session_id: u16,
    elevator_statuses: HashMap<u16, Elevator>,
    hall_order_queue: HallOrderQueue,
    write_counters: HashMap<u16, u16>,
    recorded_session_ids: HashMap<u16, u16>,
}

impl View for WorldView {
    type V = WorldViewState;

    closed spec fn view(&self) -> WorldViewState {
        WorldViewState {
            my_id: self.my_elevator_id,
            my_session_id: self.my_session_id,
            elevators: elevator_map_views(self.elevator_statuses@),
            hall: self.hall_order_queue@,
            write_counters: self.write_counters@,
            session_ids: self.recorded_session_ids@,
        }
    }
}

impl Clone for WorldView {
    fn clone(&self) -> (res: Self)
        ensures
            res@ == self@,
    {
        WorldView {
            my_elevator_id: self.my_elevator_id,
            my_session_id: self.my_session_id,
            elevator_statuses: self.elevator_statuses.clone(),
            hall_order_queue: self.hall_order_queue.clone(),
            write_counters: self.write_counters.clone(),
            recorded_session_ids: self.recorded_session_ids.clone(),
        }
    }
}

impl WorldView {
    /// The picture of a freshly started elevator: only its own record, no
    /// hall orders, its own write counter at zero and its own session.
    pub fn new(my_elevator_id: u16, my_session_id: u16) -> (w: Self)
        ensures
            w@ == fresh_world_view(my_elevator_id, my_session_id),
            w@.wf(),
    {
        let mut statuses: HashMap<u16, Elevator> = HashMap::new();
        let e = Elevator::new(my_elevator_id, my_session_id);
        statuses.insert(my_elevator_id, e);
        let mut counters: HashMap<u16, u16> = HashMap::new();
        counters.insert(my_elevator_id, 0);
        let mut sessions: HashMap<u16, u16> = HashMap::new();
        sessions.insert(my_elevator_id, my_session_id);
        let w = WorldView {
            my_elevator_id,
            my_session_id,
            elevator_statuses: statuses,
            hall_order_queue: HallOrderQueue::new(),
            write_counters: counters,
            recorded_session_ids: sessions,
        };
        assert(w@.elevators =~= Map::<u16, ElevatorView>::empty().insert(
            my_elevator_id,
            fresh_elevator(my_elevator_id, my_session_id),
        ));
        w
    }

    /// A picture with every part given, if it is well formed.
    pub fn from_parts(
        my_elevator_id: u16,
        my_session_id: u16,
        elevator_statuses: HashMap<u16, Elevator>,
        hall_order_queue: HallOrderQueue,
        write_counters: HashMap<u16, u16>,
        recorded_session_ids: HashMap<u16, u16>,
    ) -> (w: Option<Self>)
        ensures
            match w {
                Some(w) => w@ == (WorldViewState {
                    my_id: my_elevator_id,
                    my_session_id,
                    elevators: elevator_map_views(elevator_statuses@),
                    hall: hall_order_queue@,
                    write_counters: write_counters@,
                    session_ids: recorded_session_ids@,
                }) && w@.wf(),
                None => !(elevator_statuses@.contains_key(my_elevator_id) && keyed_by_id(
                    hall_order_queue@.orders,
                )),
            },
    {
        if !elevator_statuses.contains_key(&my_elevator_id) || !hall_order_queue.is_keyed_by_id() {
            return None;
        }
        Some(
            WorldView {
                my_elevator_id,
                my_session_id,
                elevator_statuses,
                hall_order_queue,
                write_counters,
                recorded_session_ids,
            },
        )
    }

    /// A picture received from a peer, with every part given, if a merge can
    /// take it (its hall orders are filed under their identifiers); unlike
    /// `from_parts` it may lack its sender's own record.
    pub fn from_received_parts(
        my_elevator_id: u16,
        my_session_id: u16,
        elevator_statuses: HashMap<u16, Elevator>,
        hall_order_queue: HallOrderQueue,
        write_counters: HashMap<u16, u16>,
        recorded_session_ids: HashMap<u16, u16>,
    ) -> (w: Option<Self>)
        ensures
            match w {
                Some(w) => w@ == (WorldViewState {
                    my_id: my_elevator_id,
                    my_session_id,
                    elevators: elevator_map_views(elevator_statuses@),
                    hall: hall_order_queue@,
                    write_counters: write_counters@,
                    session_ids: recorded_session_ids@,
                }),
                None => !keyed_by_id(hall_order_queue@.orders),
            },
    {
        if !hall_order_queue.is_keyed_by_id() {
            return None;
        }
        Some(
            WorldView {
                my_elevator_id,
                my_session_id,
                elevator_statuses,
                hall_order_queue,
                write_counters,
                recorded_session_ids,
            },
        )
    }

    pub fn get_id(&self) -> (id: u16)
        ensures
            id == self@.my_id,
    {
        self.my_elevator_id
    }

    pub fn get_session_id(&self) -> (id: u16)
        ensures
            id == self@.my_session_id,
    {
        self.my_session_id
    }

    pub fn get_elevator_statuses(&self) -> (m: &HashMap<u16, Elevator>)
        ensures
            elevator_map_views(m@) == self@.elevators,
    {
        &self.elevator_statuses
    }

    pub fn get_hall_order_queue(&self) -> (q: &HallOrderQueue)
        ensures
            q@ == self@.hall,
    {
        &self.hall_order_queue
    }

    pub fn get_mut_hall_order_queue(&mut self) -> (q: &mut HallOrderQueue)
        ensures
            q@ == old(self)@.hall,
            final(self)@ == old(self)@.with_hall(final(q)@),
    {
        &mut self.hall_order_queue
    }

    pub fn get_write_counters(&self) -> (m: &HashMap<u16, u16>)
        ensures
            m@ == self@.write_counters,
    {
        &self.write_counters
    }

    pub fn get_recorded_session_ids(&self) -> (m: &HashMap<u16, u16>)
        ensures
            m@ == self@.session_ids,
    {
        &self.recorded_session_ids
    }

    /// The record of `elevator_id`; there must be one.
    pub fn get_elevator(&self, elevator_id: u16) -> (e: &Elevator)
        requires
            self@.elevators.contains_key(elevator_id),
        ensures
            e@ == self@.elevators[elevator_id],
    {
        self.elevator_statuses.get(&elevator_id).unwrap()
    }

    /// A mutable reference to the record of `elevator_id`; there must be one.
    pub fn get_mut_elevator(&mut self, elevator_id: u16) -> (e: &mut Elevator)
        requires
            old(self)@.elevators.contains_key(elevator_id),
        ensures
            e@ == old(self)@.elevators[elevator_id],
            final(self)@ == old(self)@.with_elevator(elevator_id, final(e)@),
    {
        proof {
            lemma_elevator_map_views_insert_any(self.elevator_statuses@);
        }
        map_get_mut(&mut self.elevator_statuses, elevator_id).unwrap()
    }

    pub fn get_elev_behaviour(&self, elevator_id: u16) -> (b: &Behaviour)
        requires
            self@.elevators.contains_key(elevator_id),
        ensures
            *b == self@.elevators[elevator_id].behaviour,
    {
        self.get_elevator(elevator_id).get_behaviour()
    }

    pub fn get_elev_obstruction(&self, elevator_id: u16) -> (o: &Obstruction)
        requires
            self@.elevators.contains_key(elevator_id),
        ensures
            *o == self@.elevators[elevator_id].obstruction,
    {
        self.get_elevator(elevator_id).get_obstruction()
    }

    pub fn set_elev_dead_or_alive(&mut self, elevator_id: u16, dead_or_alive: DeadOrAlive)
        requires
            old(self)@.elevators.contains_key(elevator_id),
        ensures
            final(self)@ == old(self)@.with_elevator(
                elevator_id,
                ElevatorView { dead_or_alive, ..old(self)@.elevators[elevator_id] },
            ),
    {
        self.get_mut_elevator(elevator_id).set_dead_or_alive(dead_or_alive);
    }

    pub fn set_elev_current_floor(&mut self, elevator_id: u16, floor: u8)
        requires
            old(self)@.elevators.contains_key(elevator_id),
        ensures
            final(self)@ == old(self)@.with_elevator(
                elevator_id,
                ElevatorView { floor, ..old(self)@.elevators[elevator_id] },
            ),
    {
        self.get_mut_elevator(elevator_id).set_floor(floor);
    }

    pub fn set_elev_direction(&mut self, elevator_id: u16, direction: ElevatorDirection)
        requires
            old(self)@.elevators.contains_key(elevator_id),
        ensures
            final(self)@ == old(self)@.with_elevator(
                elevator_id,
                ElevatorView { direction, ..old(self)@.elevators[elevator_id] },
            ),
    {
        self.get_mut_elevator(elevator_id).set_direction(direction);
    }

    pub fn set_elev_behaviour(&mut self, elevator_id: u16, behaviour: Behaviour)
        requires
            old(self)@.elevators.contains_key(elevator_id),
        ensures
            final(self)@ == old(self)@.with_elevator(
                elevator_id,
                ElevatorView { behaviour, ..old(self)@.elevators[elevator_id] },
            ),
    {
        self.get_mut_elevator(elevator_id).set_behavior(behaviour);
    }

    pub fn set_elev_obstruction(&mut self, elevator_id: u16, obstruction: Obstruction)
        requires
            old(self)@.elevators.contains_key(elevator_id),
        ensures
            final(self)@ == old(self)@.with_elevator(
                elevator_id,
                ElevatorView { obstruction, ..old(self)@.elevators[elevator_id] },
            ),
    {
        self.get_mut_elevator(elevator_id).set_obstruction(obstruction);
    }

    pub fn set_elev_cab_orders(&mut self, elevator_id: u16, orders: VecDeque<Order>)
        requires
            old(self)@.elevators.contains_key(elevator_id),
        ensures
            final(self)@ == old(self)@.with_elevator(
                elevator_id,
                old(self)@.elevators[elevator_id].with_cab_orders(order_views(orders@)),
            ),
    {
        self.get_mut_elevator(elevator_id).set_cab_orders(orders);
    }

    /// Appends a cab order to the queue of `elevator_id`, acknowledged by
    /// this elevator.
    pub fn add_elev_cab_order(&mut self, elevator_id: u16, order: Order)
        requires
            old(self)@.elevators.contains_key(elevator_id),
        ensures
            final(self)@ == old(self)@.with_elevator(
                elevator_id,
                old(self)@.elevators[elevator_id].with_cab_orders(
                    old(self)@.elevators[elevator_id].cab_orders.push(order@.with_ack(old(self)@.my_id)),
                ),
            ),
    {
        let mut order = order;
        let my_id = self.get_id();
        order.acknowledge(my_id);
        self.get_mut_elevator(elevator_id).add_cab_order(order);
    }

    /// Drops the oldest cab order of `elevator_id`, if there is one.
    pub fn remove_elev_cab_order(&mut self, elevator_id: u16)
        requires
            old(self)@.elevators.contains_key(elevator_id),
        ensures
            final(self)@ == old(self)@.with_elevator(
                elevator_id,
                old(self)@.elevators[elevator_id].with_cab_orders(
                    if old(self)@.elevators[elevator_id].cab_orders.len() == 0 {
                        old(self)@.elevators[elevator_id].cab_orders
                    } else {
                        old(self)@.elevators[elevator_id].cab_orders.drop_first()
                    },
                ),
            ),
    {
        self.get_mut_elevator(elevator_id).remove_cab_order();
    }

    /// Gives the first cab order of `elevator_id` with identifier `order_id`
    /// the status `status` and this elevator's acknowledgement.
    pub fn set_elev_cab_order_status(&mut self, elevator_id: u16, order_id: u16, status: OrderStatus)
        requires
            old(self)@.elevators.contains_key(elevator_id),
        ensures
            final(self)@ == old(self)@.with_elevator(
                elevator_id,
                old(self)@.elevators[elevator_id].with_cab_orders(
                    cab_orders_with_status(
                        old(self)@.elevators[elevator_id].cab_orders,
                        order_id,
                        status,
                        old(self)@.my_id,
                    ),
                ),
            ),
    {
        let my_id = self.get_id();
        let orders = self.get_mut_elevator(elevator_id).get_mut_cab_orders();
        match find_order(orders, order_id) {
            Some(i) => {
                let mut o = orders[i].clone();
                o.set_order_status(status);
                o.acknowledge(my_id);
                replace_order_at(orders, i, o);
            },
            None => {},
        }
    }

    /// Files `order` in the hall order queue, acknowledged by this elevator.
    pub fn add_to_hall_order_queue(&mut self, order: Order)
        ensures
            final(self)@ == old(self)@.with_hall_orders(
                old(self)@.hall.orders.insert(order@.order_id, order@.with_ack(old(self)@.my_id)),
            ),
    {
        let mut order = order;
        let my_id = self.get_id();
        order.acknowledge(my_id);
        self.hall_order_queue.add_to_queue(order);
    }

    /// Gives the hall order `order_id`, if there is one, the status `status`
    /// and this elevator's acknowledgement.
    pub fn set_hall_order_status(&mut self, order_id: u16, status: OrderStatus)
        ensures
            final(self)@ == old(self)@.with_hall_orders(
                if old(self)@.hall.orders.contains_key(order_id) {
                    old(self)@.hall.orders.insert(
                        order_id,
                        old(self)@.hall.orders[order_id].with_status(status).with_ack(old(self)@.my_id),
                    )
                } else {
                    old(self)@.hall.orders
                },
            ),
    {
        let my_id = self.get_id();
        if let Some(order) = self.hall_order_queue.get_mut_hall_order(order_id) {
            order.set_order_status(status);
            order.acknowledge(my_id);
        }
    }

    /// The write counter recorded for `elevator_id`, zero when none is.
    pub fn get_elev_write_counter(&self, elevator_id: u16) -> (c: u16)
        ensures
            c == counter_of(self@.write_counters, elevator_id),
    {
        match self.write_counters.get(&elevator_id) {
            Some(c) => *c,
            None => 0,
        }
    }

    pub fn set_write_counter(&mut self, elevator_id: u16, value: u16)
        ensures
            final(self)@ == old(self)@.with_write_counters(
                old(self)@.write_counters.insert(elevator_id, value),
            ),
    {
        self.write_counters.insert(elevator_id, value);
    }

    /// Steps the write counter of `elevator_id` on by one, wrapping; a
    /// missing counter counts as zero.
    pub fn increment_write_counter(&mut self, elevator_id: &u16)
        ensures
            final(self)@ == old(self)@.with_write_counters(
                old(self)@.write_counters.insert(
                    *elevator_id,
                    next_counter(counter_of(old(self)@.write_counters, *elevator_id)),
                ),
            ),
    {
        let c = self.get_elev_write_counter(*elevator_id);
        self.write_counters.insert(*elevator_id, c.wrapping_add(1));
    }

    /// Records, for an elevator without a write counter here, the counter
    /// that `incoming_world_view` has for it (zero when it has none).
    pub fn add_new_write_counter(&mut self, incoming_world_view: &WorldView, elevator_id: u16)
        ensures
            final(self)@ == (if old(self)@.write_counters.contains_key(elevator_id) {
                old(self)@
            } else {
                old(self)@.with_write_counters(
                    old(self)@.write_counters.insert(
                        elevator_id,
                        counter_of(incoming_world_view@.write_counters, elevator_id),
                    ),
                )
            }),
    {
        if !self.write_counters.contains_key(&elevator_id) {
            let c = incoming_world_view.get_elev_write_counter(elevator_id);
            self.write_counters.insert(elevator_id, c);
        }
    }

    /// Whether `incoming_world_view` holds a newer write counter for
    /// `incoming_elevator_id` than this picture (see `counter_is_newer`).
    /// When the incoming picture has a counter for it, a missing counter here
    /// is recorded as zero.
    pub fn is_counter_newer(
        &mut self,
        incoming_elevator_id: &u16,
        incoming_world_view: &WorldView,
        me_resurrected: bool,
    ) -> (newer: bool)
        ensures
            newer == newer_in(
                old(self)@.write_counters,
                incoming_world_view@.write_counters,
                *incoming_elevator_id,
                me_resurrected,
            ),
            final(self)@ == old(self)@.with_write_counters(
                counters_after_lookup(
                    old(self)@.write_counters,
                    incoming_world_view@.write_counters,
                    *incoming_elevator_id,
                ),
            ),
    {
        let incoming_write_counter: u16 = match incoming_world_view.write_counters.get(
            incoming_elevator_id,
        ) {
            Some(counter) => *counter,
            None => {
                assert(old(self)@.write_counters =~= counters_after_lookup(
                    old(self)@.write_counters,
                    incoming_world_view@.write_counters,
                    *incoming_elevator_id,
                ));
                return false;
            },
        };
        let my_last_recorded_counter: u16 = match self.write_counters.get(incoming_elevator_id) {
            Some(counter) => *counter,
            None => {
                self.write_counters.insert(*incoming_elevator_id, 0);
                0
            },
        };
        let version_control = incoming_write_counter.wrapping_sub(my_last_recorded_counter);
        if me_resurrected {
            version_control < 0x8000
        } else {
            version_control != 0 && version_control < 0x8000
        }
    }

    /// Takes every hall order of `incoming_world_view` that
    /// `takes_incoming_order` admits, with this elevator's acknowledgement,
    /// when the sender's write counter is newer and the sender has not been
    /// restarted.
    pub fn update_my_hall_order_queue(
        &mut self,
        incoming_elevator_id: u16,
        incoming_world_view: &WorldView,
        me_resurrected: bool,
        incoming_resurrected: bool,
    )
        requires
            keyed_by_id(incoming_world_view@.hall.orders),
        ensures
            ({
                let counters = counters_after_lookup(
                    old(self)@.write_counters,
                    incoming_world_view@.write_counters,
                    incoming_elevator_id,
                );
                let adopt = !incoming_resurrected && newer_in(
                    old(self)@.write_counters,
                    incoming_world_view@.write_counters,
                    incoming_elevator_id,
                    me_resurrected,
                );
                final(self)@ == old(self)@.with_write_counters(counters).with_hall_orders(
                    if adopt {
                        taken_hall_orders(
                            old(self)@.hall.orders,
                            old(self)@.hall.pending_cleanup,
                            incoming_world_view@.hall.orders,
                            old(self)@.my_id,
                        )
                    } else {
                        old(self)@.hall.orders
                    },
                )
            }),
    {
        let newer = self.is_counter_newer(&incoming_elevator_id, incoming_world_view, me_resurrected);
        if !(newer && !incoming_resurrected) {
            assert(self@.hall.orders =~= old(self)@.hall.orders);
            return;
        }
        let my_id: u16 = self.get_id();
        let ghost start = self@;
        let ghost mine = old(self)@.hall.orders;
        let ghost pending = old(self)@.hall.pending_cleanup;
        let ghost inc = incoming_world_view@.hall.orders;
        let ids = map_keys(incoming_world_view.hall_order_queue.get_order_queue());
        let mut i: usize = 0;
        while i < ids.len()
            invariant
                i <= ids.len(),
                ids@.to_set() == inc.dom(),
                ids@.no_duplicates(),
                my_id == start.my_id,
                inc == incoming_world_view@.hall.orders,
                keyed_by_id(inc),
                self@ == start.with_hall_orders(self@.hall.orders),
                self@.hall.pending_cleanup == pending,
                forall|k: u16|
                    #[trigger] self@.hall.orders.contains_key(k) <==> (mine.contains_key(k) || (
                    ids@.take(i as int).contains(k) && inc.contains_key(k) && !pending.contains(k))),
                forall|k: u16|
                    #[trigger] self@.hall.orders.contains_key(k) ==> self@.hall.orders[k] == (
                    if ids@.take(i as int).contains(k) && takes_incoming_order(mine, pending, inc, k) {
                        inc[k].with_barrier(inc[k].ack_barrier.push(my_id))
                    } else {
                        mine[k]
                    }),
            decreases ids.len() - i,
        {
            let id = ids[i];
            let ghost before = self@.hall.orders;
            proof {
                assert(ids@.take(i + 1) =~= ids@.take(i as int).push(id));
                assert(ids@.to_set().contains(id));
                assert(!ids@.take(i as int).contains(id)) by {
                    if ids@.take(i as int).contains(id) {
                        let j = choose|j: int| 0 <= j < i && ids@[j] == id;
                        assert(ids@[j] == ids@[i as int]);
                    }
                }
                assert forall|k: u16| k != id implies ids@.take(i + 1).contains(k) == ids@.take(
                    i as int,
                ).contains(k) by {}
                assert(ids@.take(i + 1)[i as int] == id);
            }
            if contains_id(self.hall_order_queue.get_pending_cleanup(), id) {
                proof {
                    assert(self@.hall.pending_cleanup.contains(id));
                    assert forall|k: u16|
                        #[trigger] self@.hall.orders.contains_key(k) <==> (mine.contains_key(k) || (
                        ids@.take(i + 1).contains(k) && inc.contains_key(k) && !pending.contains(k))) by {}
                }
                i += 1;
                continue;
            }
            let mut incoming_order: Order = incoming_world_view.hall_order_queue.get_hall_order(id).clone();
            assert(incoming_order@.order_id == id);
            let ghost mine_has = self.hall_order_queue@.orders.contains_key(id);
            proof {
                assert(mine_has == mine.contains_key(id));
            }
            let take = match self.hall_order_queue.get_order_queue().get(&id) {
                None => true,
                Some(my_order) => {
                    order_status_rank(incoming_order.get_order_status()) > order_status_rank(
                        my_order.get_order_status(),
                    )
                },
            };
            if take {
                incoming_order.insert_into_ack_barrier(my_id);
                self.hall_order_queue.add_to_queue(incoming_order);
            }
            proof {
                assert forall|k: u16|
                    #[trigger] self@.hall.orders.contains_key(k) <==> (mine.contains_key(k) || (
                    ids@.take(i + 1).contains(k) && inc.contains_key(k) && !pending.contains(k))) by {
                    if k != id {
                        assert(self@.hall.orders.contains_key(k) == before.contains_key(k));
                    }
                }
                assert forall|k: u16|
                    #[trigger] self@.hall.orders.contains_key(k) implies self@.hall.orders[k] == (
                    if ids@.take(i + 1).contains(k) && takes_incoming_order(mine, pending, inc, k) {
                        inc[k].with_barrier(inc[k].ack_barrier.push(my_id))
                    } else {
                        mine[k]
                    }) by {
                    if k != id {
                        assert(before.contains_key(k));
                        assert(self@.hall.orders[k] == before[k]);
                    }
                }
            }
            i += 1;
        }
        proof {
            assert(ids@.take(ids.len() as int) =~= ids@);
            assert forall|k: u16| ids@.contains(k) <==> inc.contains_key(k) by {
                assert(ids@.to_set().contains(k) == ids@.contains(k));
            }
            assert(self@.hall.orders =~= taken_hall_orders(mine, pending, inc, my_id));
        }
    }

    /// Adds to every hall order the acknowledgements that the incoming copy
    /// of the same order holds, when the sender's write counter is newer and
    /// the sender has not been restarted.
    pub fn update_hall_ack_barriers(
        &mut self,
        incoming_elevator_id: u16,
        incoming_world_view: &WorldView,
        me_resurrected: bool,
        other_resurrected: bool,
    )
        requires
            keyed_by_id(incoming_world_view@.hall.orders),
        ensures
            ({
                let counters = counters_after_lookup(
                    old(self)@.write_counters,
                    incoming_world_view@.write_counters,
                    incoming_elevator_id,
                );
                let adopt = !other_resurrected && newer_in(
                    old(self)@.write_counters,
                    incoming_world_view@.write_counters,
                    incoming_elevator_id,
                    me_resurrected,
                );
                final(self)@ == old(self)@.with_write_counters(counters).with_hall_orders(
                    if adopt {
                        hall_acks_merged(old(self)@.hall.orders, incoming_world_view@.hall.orders)
                    } else {
                        old(self)@.hall.orders
                    },
                )
            }),
    {
        let newer = self.is_counter_newer(&incoming_elevator_id, incoming_world_view, me_resurrected);
        if !(newer && !other_resurrected) {
            assert(self@.hall.orders =~= old(self)@.hall.orders);
            return;
        }
        let ghost start = self@;
        let ghost mine = old(self)@.hall.orders;
        let ghost inc = incoming_world_view@.hall.orders;
        let ids = map_keys(incoming_world_view.hall_order_queue.get_order_queue());
        let mut i: usize = 0;
        while i < ids.len()
            invariant
                i <= ids.len(),
                ids@.to_set() == inc.dom(),
                ids@.no_duplicates(),
                inc == incoming_world_view@.hall.orders,
                keyed_by_id(inc),
                self@ == start.with_hall_orders(self@.hall.orders),
                self@.hall.orders.dom() == mine.dom(),
                forall|k: u16|
                    #[trigger] self@.hall.orders.contains_key(k) ==> self@.hall.orders[k] == (
                    if ids@.take(i as int).contains(k) && inc.contains_key(k) {
                        mine[k].with_barrier(merge_barrier(mine[k].ack_barrier, inc[k].ack_barrier))
                    } else {
                        mine[k]
                    }),
            decreases ids.len() - i,
        {
            let id = ids[i];
            let ghost before = self@.hall.orders;
            proof {
                assert(ids@.take(i + 1) =~= ids@.take(i as int).push(id));
                assert(ids@.to_set().contains(id));
                assert(!ids@.take(i as int).contains(id)) by {
                    if ids@.take(i as int).contains(id) {
                        let j = choose|j: int| 0 <= j < i && ids@[j] == id;
                        assert(ids@[j] == ids@[i as int]);
                    }
                }
                assert forall|k: u16| k != id implies ids@.take(i + 1).contains(k) == ids@.take(
                    i as int,
                ).contains(k) by {}
                assert(ids@.take(i + 1)[i as int] == id);
            }
            let order: &Order = incoming_world_view.hall_order_queue.get_hall_order(id);
            let order_id: u16 = *order.get_order_id();
            assert(order_id == id);
            if let Some(my_order) = self.hall_order_queue.get_mut_hall_order(order_id) {
                my_order.merge_ack_barrier(order.get_ack_barrier());
            }
            proof {
                assert forall|k: u16|
                    #[trigger] self@.hall.orders.contains_key(k) implies self@.hall.orders[k] == (
                    if ids@.take(i + 1).contains(k) && inc.contains_key(k) {
                        mine[k].with_barrier(merge_barrier(mine[k].ack_barrier, inc[k].ack_barrier))
                    } else {
                        mine[k]
                    }) by {
                    if k != id {
                        assert(before.contains_key(k));
                        assert(self@.hall.orders[k] == before[k]);
                    }
                }
            }
            i += 1;
        }
        proof {
            assert(ids@.take(ids.len() as int) =~= ids@);
            assert forall|k: u16| ids@.contains(k) <==> inc.contains_key(k) by {
                assert(ids@.to_set().contains(k) == ids@.contains(k));
            }
            assert(self@.hall.orders =~= hall_acks_merged(mine, inc));
        }
    }

    /// Takes over every newer incoming write counter (see `updated_counters`).
    pub fn update_my_write_counters(
        &mut self,
        world_view: &WorldView,
        me_resurrected: bool,
        other_resurrected: bool,
    )
        ensures
            final(self)@ == old(self)@.with_write_counters(
                updated_counters(
                    old(self)@.write_counters,
                    world_view@.write_counters,
                    me_resurrected,
                    other_resurrected,
                ),
            ),
    {
        let ghost mine = old(self)@.write_counters;
        let ghost inc = world_view@.write_counters;
        let ids = map_keys(&world_view.write_counters);
        let mut i: usize = 0;
        while i < ids.len()
            invariant
                i <= ids.len(),
                ids@.to_set() == inc.dom(),
                ids@.no_duplicates(),
                inc == world_view@.write_counters,
                self@ == old(self)@.with_write_counters(self@.write_counters),
                forall|k: u16|
                    #[trigger] self@.write_counters.contains_key(k) <==> (mine.contains_key(k) || (
                    ids@.take(i as int).contains(k) && inc.contains_key(k))),
                forall|k: u16|
                    #[trigger] self@.write_counters.contains_key(k) ==> self@.write_counters[k] == (
                    if ids@.take(i as int).contains(k) && !other_resurrected && newer_in(
                        mine,
                        inc,
                        k,
                        me_resurrected,
                    ) {
                        inc[k]
                    } else {
                        counter_of(mine, k)
                    }),
            decreases ids.len() - i,
        {
            let id = ids[i];
            let ghost before = self@.write_counters;
            proof {
                assert(ids@.take(i + 1) =~= ids@.take(i as int).push(id));
                assert(ids@.to_set().contains(id));
                assert(!ids@.take(i as int).contains(id)) by {
                    if ids@.take(i as int).contains(id) {
                        let j = choose|j: int| 0 <= j < i && ids@[j] == id;
                        assert(ids@[j] == ids@[i as int]);
                    }
                }
                assert forall|k: u16| k != id implies ids@.take(i + 1).contains(k) == ids@.take(
                    i as int,
                ).contains(k) by {}
                assert(ids@.take(i + 1)[i as int] == id);
                assert(counter_of(before, id) == counter_of(mine, id));
            }
            let newer = self.is_counter_newer(&id, world_view, me_resurrected);
            if newer && !other_resurrected {
                let c = world_view.get_elev_write_counter(id);
                self.set_write_counter(id, c);
            }
            proof {
                assert forall|k: u16|
                    #[trigger] self@.write_counters.contains_key(k) <==> (mine.contains_key(k) || (
                    ids@.take(i + 1).contains(k) && inc.contains_key(k))) by {
                    if k != id {
                        assert(self@.write_counters.contains_key(k) == before.contains_key(k));
                    }
                }
                assert forall|k: u16|
                    #[trigger] self@.write_counters.contains_key(k) implies self@.write_counters[k] == (
                    if ids@.take(i + 1).contains(k) && !other_resurrected && newer_in(
                        mine,
                        inc,
                        k,
                        me_resurrected,
                    ) {
                        inc[k]
                    } else {
                        counter_of(mine, k)
                    }) by {
                    if k != id {
                        assert(before.contains_key(k));
                        assert(self@.write_counters[k] == before[k]);
                    }
                }
            }
            i += 1;
        }
        proof {
            assert(ids@.take(ids.len() as int) =~= ids@);
            assert forall|k: u16| ids@.contains(k) <==> inc.contains_key(k) by {
                assert(ids@.to_set().contains(k) == ids@.contains(k));
            }
            assert(self@.write_counters =~= updated_counters(mine, inc, me_resurrected, other_resurrected));
        }
    }

    /// Records, for every considered elevator without a write counter here,
    /// the sender's counter (see `counters_with_new`).
    fn add_new_write_counters(&mut self, incoming_world_view: &WorldView, me_res: bool)
        ensures
            final(self)@ == old(self)@.with_write_counters(
                counters_with_new(
                    old(self)@.write_counters,
                    incoming_world_view@,
                    old(self)@.my_id,
                    me_res,
                ),
            ),
    {
        let my_id = self.get_id();
        let ghost w0 = old(self)@.write_counters;
        let ghost inc = incoming_world_view@;
        let ids = map_keys(&incoming_world_view.recorded_session_ids);
        let mut i: usize = 0;
        while i < ids.len()
            invariant
                i <= ids.len(),
                ids@.to_set() == inc.session_ids.dom(),
                ids@.no_duplicates(),
                inc == incoming_world_view@,
                my_id == old(self)@.my_id,
                self@ == old(self)@.with_write_counters(self@.write_counters),
                self@.write_counters == Map::new(
                    |k: u16| w0.contains_key(k) || (ids@.take(i as int).contains(k) && considered(inc, my_id, me_res, k)),
                    |k: u16| if w0.contains_key(k) { w0[k] } else { counter_of(inc.write_counters, k) },
                ),
            decreases ids.len() - i,
        {
            let id = ids[i];
            let ghost before = self@.write_counters;
            proof {
                assert(ids@.take(i + 1) =~= ids@.take(i as int).push(id));
                assert(ids@.to_set().contains(id));
                assert forall|k: u16| k != id implies ids@.take(i + 1).contains(k) == ids@.take(
                    i as int,
                ).contains(k) by {}
                assert(ids@.take(i + 1)[i as int] == id);
            }
            if !(id == my_id && !me_res) {
                self.add_new_write_counter(incoming_world_view, id);
            }
            proof {
                assert(self@.write_counters =~= Map::new(
                    |k: u16| w0.contains_key(k) || (ids@.take(i + 1).contains(k) && considered(inc, my_id, me_res, k)),
                    |k: u16| if w0.contains_key(k) { w0[k] } else { counter_of(inc.write_counters, k) },
                ));
            }
            i += 1;
        }
        proof {
            assert(ids@.take(ids.len() as int) =~= ids@);
            assert forall|k: u16| ids@.contains(k) <==> inc.session_ids.contains_key(k) by {
                assert(ids@.to_set().contains(k) == ids@.contains(k));
            }
            assert(self@.write_counters =~= counters_with_new(w0, inc, my_id, me_res));
        }
    }

    /// Takes over every adopted incoming record (see `adopted_elevators`)
    /// and tells whether there was one.
    fn adopt_newer_elevators(
        &mut self,
        incoming_world_view: &WorldView,
        me_res: bool,
        inc_res: bool,
    ) -> (any: bool)
        requires
            forall|k: u16|
                considered(incoming_world_view@, old(self)@.my_id, me_res, k)
                    ==> #[trigger] old(self)@.write_counters.contains_key(k),
            forall|k: u16|
                #[trigger] adopted(
                    old(self)@.write_counters,
                    incoming_world_view@,
                    old(self)@.my_id,
                    me_res,
                    inc_res,
                    k,
                ) ==> incoming_world_view@.elevators.contains_key(k),
        ensures
            final(self)@ == old(self)@.with_elevators(
                adopted_elevators(
                    old(self)@.elevators,
                    old(self)@.write_counters,
                    incoming_world_view@,
                    old(self)@.my_id,
                    me_res,
                    inc_res,
                ),
            ),
            any == exists|k: u16|
                adopted(
                    old(self)@.write_counters,
                    incoming_world_view@,
                    old(self)@.my_id,
                    me_res,
                    inc_res,
                    k,
                ),
    {
        let my_id = self.get_id();
        let ghost w0 = old(self)@.write_counters;
        let ghost e0 = old(self)@.elevators;
        let ghost inc = incoming_world_view@;
        let ids = map_keys(&incoming_world_view.recorded_session_ids);
        let mut any = false;
        let mut i: usize = 0;
        while i < ids.len()
            invariant
                i <= ids.len(),
                ids@.to_set() == inc.session_ids.dom(),
                ids@.no_duplicates(),
                inc == incoming_world_view@,
                my_id == old(self)@.my_id,
                w0 == old(self)@.write_counters,
                e0 == old(self)@.elevators,
                forall|k: u16| considered(inc, my_id, me_res, k) ==> #[trigger] w0.contains_key(k),
                forall|k: u16|
                    #[trigger] adopted(w0, inc, my_id, me_res, inc_res, k) ==> inc.elevators.contains_key(k),
                self@ == old(self)@.with_elevators(self@.elevators),
                self@.elevators == Map::new(
                    |k: u16| e0.contains_key(k) || (ids@.take(i as int).contains(k) && adopted(w0, inc, my_id, me_res, inc_res, k)),
                    |k: u16|
                        if ids@.take(i as int).contains(k) && adopted(w0, inc, my_id, me_res, inc_res, k) {
                            let stored = if e0.contains_key(k) { e0[k] } else { inc.elevators[k] };
                            acknowledged_copy(adopt_elevator(stored, inc.elevators[k]), inc.elevators[k], my_id)
                        } else {
                            e0[k]
                        },
                ),
                any == exists|k: u16| ids@.take(i as int).contains(k) && #[trigger] adopted(w0, inc, my_id, me_res, inc_res, k),
            decreases ids.len() - i,
        {
            let id = ids[i];
            let ghost before = self@.elevators;
            proof {
                assert(ids@.take(i + 1) =~= ids@.take(i as int).push(id));
                assert(ids@.to_set().contains(id));
                assert(!ids@.take(i as int).contains(id)) by {
                    if ids@.take(i as int).contains(id) {
                        let j = choose|j: int| 0 <= j < i && ids@[j] == id;
                        assert(ids@[j] == ids@[i as int]);
                    }
                }
                assert forall|k: u16| k != id implies ids@.take(i + 1).contains(k) == ids@.take(
                    i as int,
                ).contains(k) by {}
                assert(ids@.take(i + 1)[i as int] == id);
            }
            if id == my_id && !me_res {
                proof {
                    assert(!adopted(w0, inc, my_id, me_res, inc_res, id));
                    assert(self@.elevators =~= Map::new(
                        |k: u16| e0.contains_key(k) || (ids@.take(i + 1).contains(k) && adopted(w0, inc, my_id, me_res, inc_res, k)),
                        |k: u16|
                            if ids@.take(i + 1).contains(k) && adopted(w0, inc, my_id, me_res, inc_res, k) {
                                let stored = if e0.contains_key(k) { e0[k] } else { inc.elevators[k] };
                                acknowledged_copy(adopt_elevator(stored, inc.elevators[k]), inc.elevators[k], my_id)
                            } else {
                                e0[k]
                            },
                    ));
                    if exists|k: u16| ids@.take(i + 1).contains(k) && #[trigger] adopted(w0, inc, my_id, me_res, inc_res, k) {
                        let k = choose|k: u16| ids@.take(i + 1).contains(k) && #[trigger] adopted(w0, inc, my_id, me_res, inc_res, k);
                        assert(ids@.take(i as int).contains(k));
                    }
                }
                i += 1;
                continue;
            }
            let ghost pre_call = self@;
            proof {
                assert(considered(inc, my_id, me_res, id));
                assert(w0.contains_key(id));
                assert(pre_call.write_counters == w0);
                assert(counters_after_lookup(w0, inc.write_counters, id) == w0);
            }
            let newer = self.is_counter_newer(&id, incoming_world_view, me_res);
            proof {
                assert(self@ == pre_call.with_write_counters(counters_after_lookup(pre_call.write_counters, inc.write_counters, id)));
                assert(self@.write_counters == w0);
                assert(self@ == pre_call);
                assert(newer && !inc_res <==> adopted(w0, inc, my_id, me_res, inc_res, id));
            }
            if newer && !inc_res {
                let ghost stored_g = if e0.contains_key(id) { e0[id] } else { inc.elevators[id] };
                proof {
                    assert(before.contains_key(id) == e0.contains_key(id));
                    if e0.contains_key(id) {
                        assert(before[id] == e0[id]);
                    }
                }
                let inc_e = incoming_world_view.get_elevator(id);
                if !self.elevator_statuses.contains_key(&id) {
                    let e = inc_e.clone();
                    proof {
                        lemma_elevator_map_views_insert_any(self.elevator_statuses@);
                    }
                    self.elevator_statuses.insert(id, e);
                }
                assert(self@.elevators[id] == stored_g);
                {
                    let stored = self.get_mut_elevator(id);
                    stored.set_behavior(*inc_e.get_behaviour());
                    stored.set_obstruction(*inc_e.get_obstruction());
                    stored.set_floor(*inc_e.get_floor());
                    stored.set_direction(*inc_e.get_direction());
                    stored.set_cab_orders(clone_orders(inc_e.get_cab_orders()));
                    stored.set_dead_or_alive(*inc_e.get_dead_or_alive());
                }
                assert(self@.elevators[id] == adopt_elevator(stored_g, inc.elevators[id]));
                let orders = self.get_mut_elevator(id).get_mut_cab_orders();
                acknowledge_unacknowledged(orders, inc_e.get_cab_orders(), my_id);
                any = true;
                proof {
                    let stored = if e0.contains_key(id) { e0[id] } else { inc.elevators[id] };
                    assert(self@.elevators[id] == acknowledged_copy(
                        adopt_elevator(stored, inc.elevators[id]),
                        inc.elevators[id],
                        my_id,
                    ));
                    assert(ids@.take(i + 1).contains(id));
                }
            }
            proof {
                assert forall|k: u16| k != id implies (self@.elevators.contains_key(k) == before.contains_key(k)
                    && (before.contains_key(k) ==> self@.elevators[k] == before[k])) by {}
                assert(self@.elevators =~= Map::new(
                    |k: u16| e0.contains_key(k) || (ids@.take(i + 1).contains(k) && adopted(w0, inc, my_id, me_res, inc_res, k)),
                    |k: u16|
                        if ids@.take(i + 1).contains(k) && adopted(w0, inc, my_id, me_res, inc_res, k) {
                            let stored = if e0.contains_key(k) { e0[k] } else { inc.elevators[k] };
                            acknowledged_copy(adopt_elevator(stored, inc.elevators[k]), inc.elevators[k], my_id)
                        } else {
                            e0[k]
                        },
                ));
                if any {
                    if !(newer && !inc_res) {
                        let k = choose|k: u16| ids@.take(i as int).contains(k) && #[trigger] adopted(w0, inc, my_id, me_res, inc_res, k);
                        assert(ids@.take(i + 1).contains(k));
                    }
                } else {
                    if exists|k: u16| ids@.take(i + 1).contains(k) && #[trigger] adopted(w0, inc, my_id, me_res, inc_res, k) {
                        let k = choose|k: u16| ids@.take(i + 1).contains(k) && #[trigger] adopted(w0, inc, my_id, me_res, inc_res, k);
                        if k != id {
                            assert(ids@.take(i as int).contains(k));
                        }
                    }
                }
            }
            i += 1;
        }
        proof {
            assert(ids@.take(ids.len() as int) =~= ids@);
            assert forall|k: u16| ids@.contains(k) <==> inc.session_ids.contains_key(k) by {
                assert(ids@.to_set().contains(k) == ids@.contains(k));
            }
            assert(self@.elevators =~= adopted_elevators(e0, w0, inc, my_id, me_res, inc_res));
            if exists|k: u16| adopted(w0, inc, my_id, me_res, inc_res, k) {
                let k = choose|k: u16| adopted(w0, inc, my_id, me_res, inc_res, k);
                assert(ids@.contains(k));
            }
        }
        any
    }

    /// When the incoming counter of `incoming_elevator_id` is newer and the
    /// sender has not been restarted: acknowledges, on the local copies, the
    /// incoming cab orders of that elevator that this elevator has not
    /// acknowledged, and merges into this elevator's own cab orders the
    /// acknowledgements of the sender's copy of them.
    pub fn update_cab_ack_barriers(
        &mut self,
        incoming_elevator_id: u16,
        incoming_world_view: &WorldView,
        me_resurrected: bool,
        incoming_resurrected: bool,
    )
        requires
            old(self)@.elevators.contains_key(old(self)@.my_id),
            (!incoming_resurrected && newer_in(
                old(self)@.write_counters,
                incoming_world_view@.write_counters,
                incoming_elevator_id,
                me_resurrected,
            ) && has_unacknowledged(incoming_world_view@, incoming_elevator_id, old(self)@.my_id))
                ==> old(self)@.elevators.contains_key(incoming_elevator_id),
        ensures
            ({
                let s = old(self)@;
                let inc = incoming_world_view@;
                let adopt = !incoming_resurrected && newer_in(
                    s.write_counters,
                    inc.write_counters,
                    incoming_elevator_id,
                    me_resurrected,
                );
                let acked = if adopt && s.elevators.contains_key(incoming_elevator_id)
                    && inc.elevators.contains_key(incoming_elevator_id) {
                    s.elevators.insert(
                        incoming_elevator_id,
                        acknowledged_copy(
                            s.elevators[incoming_elevator_id],
                            inc.elevators[incoming_elevator_id],
                            s.my_id,
                        ),
                    )
                } else {
                    s.elevators
                };
                final(self)@ == s.with_write_counters(
                    counters_after_lookup(s.write_counters, inc.write_counters, incoming_elevator_id),
                ).with_elevators(
                    if adopt {
                        with_merged_my_acks(acked, inc.elevators, s.my_id)
                    } else {
                        s.elevators
                    },
                )
            }),
    {
        let my_id = self.get_id();
        let newer = self.is_counter_newer(&incoming_elevator_id, incoming_world_view, me_resurrected);
        if newer && !incoming_resurrected {
            if let Some(incoming_elevator) = incoming_world_view.elevator_statuses.get(&incoming_elevator_id) {
                if self.elevator_statuses.contains_key(&incoming_elevator_id) {
                    let orders = self.get_mut_elevator(incoming_elevator_id).get_mut_cab_orders();
                    acknowledge_unacknowledged(orders, incoming_elevator.get_cab_orders(), my_id);
                }
            }
            if let Some(incoming_my_elevator) = incoming_world_view.elevator_statuses.get(&my_id) {
                let orders = self.get_mut_elevator(my_id).get_mut_cab_orders();
                merge_cab_order_acks(orders, incoming_my_elevator.get_cab_orders());
            }
        }
    }

    /// Merges the picture `incoming_world_view` received from a peer into this
    /// one, as `sync_result` says.
    pub fn synchronize_world_view(&mut self, incoming_world_view: WorldView)
        requires
            sync_allowed(old(self)@, incoming_world_view@),
        ensures
            final(self)@ == sync_result(old(self)@, incoming_world_view@),
            final(self)@.wf(),
    {
        let ghost s = old(self)@;
        let ghost inc = incoming_world_view@;
        let my_id: u16 = self.get_id();
        let my_session_id: u16 = self.get_session_id();
        let other_id: u16 = incoming_world_view.get_id();
        let other_session_id: u16 = incoming_world_view.get_session_id();
        let mut incoming_resurrected: bool = false;
        let mut me_resurrected: bool = false;
        let recorded: Option<u16> = match self.recorded_session_ids.get(&other_id) {
            Some(r) => Some(*r),
            None => None,
        };
        match recorded {
            None => {
                self.recorded_session_ids.insert(other_id, other_session_id);
            },
            Some(r) => {
                if r != other_session_id {
                    self.recorded_session_ids.insert(other_id, other_session_id);
                    incoming_resurrected = true;
                } else {
                    assert(s.session_ids.insert(other_id, other_session_id) =~= s.session_ids);
                }
            },
        }
        if let Some(session_id) = incoming_world_view.recorded_session_ids.get(&my_id) {
            if *session_id != my_session_id {
                me_resurrected = true;
            }
        }
        assert(incoming_resurrected == crate::memory::world_view::incoming_resurrected(s, inc));
        assert(me_resurrected == crate::memory::world_view::me_resurrected(s, inc));
        let ghost s1 = self@;
        self.add_new_write_counters(&incoming_world_view, me_resurrected);
        let ghost w1 = self@.write_counters;
        assert(w1 == counters_with_new(s.write_counters, inc, my_id, me_resurrected));
        let any = self.adopt_newer_elevators(&incoming_world_view, me_resurrected, incoming_resurrected);
        if any {
            if let Some(incoming_my_elevator) = incoming_world_view.elevator_statuses.get(&my_id) {
                let orders = self.get_mut_elevator(my_id).get_mut_cab_orders();
                merge_cab_order_acks(orders, incoming_my_elevator.get_cab_orders());
            }
        }
        proof {
            assert(self@.elevators =~= merged_elevators(
                s.elevators,
                w1,
                inc,
                my_id,
                me_resurrected,
                incoming_resurrected,
            ));
        }
        self.update_my_hall_order_queue(other_id, &incoming_world_view, me_resurrected, incoming_resurrected);
        let ghost w2 = self@.write_counters;
        proof {
            assert(w2 == counters_after_lookup(w1, inc.write_counters, other_id));
            assert(counter_of(w2, other_id) == counter_of(w1, other_id));
            assert(counters_after_lookup(w2, inc.write_counters, other_id) =~= w2);
        }
        self.update_hall_ack_barriers(other_id, &incoming_world_view, me_resurrected, incoming_resurrected);
        proof {
            assert(self@.hall.orders =~= synced_hall_orders(s, inc));
        }
        self.update_my_write_counters(&incoming_world_view, me_resurrected, incoming_resurrected);
        self.increment_write_counter(&my_id);
        proof {
            assert(self@.write_counters =~= synced_counters(s, inc));
            assert(self@ =~= sync_result(s, inc));
        }
    }

    /// One pass of the status manager over this elevator's own cab orders
    /// (see `managed_cab_orders`).
    pub fn cab_order_status_manager(&mut self, num_elevators: u8)
        requires
            old(self)@.elevators.contains_key(old(self)@.my_id),
        ensures
            final(self)@ == old(self)@.with_elevator(
                old(self)@.my_id,
                old(self)@.elevators[old(self)@.my_id].with_cab_orders(
                    managed_cab_orders(
                        old(self)@.elevators[old(self)@.my_id].cab_orders,
                        num_elevators as nat,
                    ),
                ),
            ),
    {
        let my_id = self.get_id();
        let n = num_elevators as usize;
        let ghost nn = num_elevators as nat;
        let my_cab_orders = self.get_mut_elevator(my_id).get_mut_cab_orders();
        let ghost start = order_views(my_cab_orders@);
        let mut stepped: VecDeque<Order> = VecDeque::new();
        let mut orders_to_remove: Vec<Order> = Vec::new();
        let mut i: usize = 0;
        while i < my_cab_orders.len()
            invariant
                i <= my_cab_orders.len(),
                n == nn,
                start == order_views(my_cab_orders@),
                order_views(stepped@) == start.take(i as int).map_values(step_fn(nn)),
                order_views(orders_to_remove@) == start.take(i as int).filter(ready_fn(nn)),
            decreases my_cab_orders.len() - i,
        {
            let mut order = my_cab_orders[i].clone();
            let ghost orig = order@;
            proof {
                assert(start.take(i + 1) =~= start.take(i as int).push(orig));
                start.take(i as int).lemma_filter_push(orig, ready_fn(nn));
                crate::memory::elevator::lemma_order_views_push(orders_to_remove@, order);
            }
            let unique_elevator_ids_count = order.unique_acks();
            if *order.get_order_status() == OrderStatus::Unconfirmed && unique_elevator_ids_count == n {
                order.set_order_status(OrderStatus::Confirmed);
                order.set_ack_barrier(Vec::new());
            } else if *order.get_order_status() == OrderStatus::Completed && unique_elevator_ids_count == n {
                order.set_order_status(OrderStatus::ReadyForDeletion);
                order.set_ack_barrier(Vec::new());
            } else if *order.get_order_status() == OrderStatus::ReadyForDeletion && unique_elevator_ids_count == n {
                orders_to_remove.push(order.clone());
            }
            proof {
                assert(order@ == step_fn(nn)(orig));
                crate::memory::elevator::lemma_order_views_push(stepped@, order);
                assert(start.take(i + 1).map_values(step_fn(nn)) =~= start.take(i as int).map_values(
                    step_fn(nn),
                ).push(step_fn(nn)(orig)));
            }
            stepped.push_back(order);
            i += 1;
        }
        proof {
            assert(start.take(my_cab_orders.len() as int) =~= start);
        }
        let ghost removed = start.filter(ready_fn(nn));
        let ghost stepped_views = start.map_values(step_fn(nn));
        let ghost keep = not_in_fn(removed);
        let mut kept: VecDeque<Order> = VecDeque::new();
        let mut j: usize = 0;
        while j < stepped.len()
            invariant
                j <= stepped.len(),
                order_views(stepped@) == stepped_views,
                order_views(orders_to_remove@) == removed,
                keep == not_in_fn(removed),
                order_views(kept@) == stepped_views.take(j as int).filter(keep),
            decreases stepped.len() - j,
        {
            let ghost o = stepped@[j as int]@;
            proof {
                assert(stepped_views[j as int] == o);
                assert(stepped_views.take(j + 1) =~= stepped_views.take(j as int).push(o));
                stepped_views.take(j as int).lemma_filter_push(o, keep);
            }
            let mut found = false;
            let mut r: usize = 0;
            while r < orders_to_remove.len()
                invariant
                    r <= orders_to_remove.len(),
                    j < stepped.len(),
                    o == stepped@[j as int]@,
                    order_views(orders_to_remove@) == removed,
                    found == (exists|q: int| 0 <= q < r && removed[q] == o),
                decreases orders_to_remove.len() - r,
            {
                assert(removed[r as int] == orders_to_remove@[r as int]@);
                if orders_to_remove[r].same_as(&stepped[j]) {
                    found = true;
                }
                r += 1;
            }
            proof {
                if found {
                    let q = choose|q: int| 0 <= q < orders_to_remove.len() && removed[q] == o;
                    assert(removed.contains(o));
                } else {
                    assert(!removed.contains(o));
                }
            }
            if !found {
                let x = stepped[j].clone();
                proof {
                    crate::memory::elevator::lemma_order_views_push(kept@, x);
                }
                kept.push_back(x);
            }
            j += 1;
        }
        proof {
            assert(stepped_views.take(stepped.len() as int) =~= stepped_views);
        }
        *my_cab_orders = kept;
    }

    /// Number of elevators recorded as alive, at least one; there must be
    /// fewer than 256.
    pub fn alive_elevators_count(&self) -> (n: u8)
        requires
            alive_count(self@.elevators) <= 255,
        ensures
            n == participants(self@.elevators),
    {
        let ghost e = self@.elevators;
        let ghost p = alive_fn(e);
        let keys = map_keys(&self.elevator_statuses);
        proof {
            lemma_filter_len_to_set(keys@, p);
            assert(keys@.to_set().filter(p) =~= e.dom().filter(p));
        }
        let mut elevators_alive_count: u8 = 0;
        let mut i: usize = 0;
        while i < keys.len()
            invariant
                i <= keys.len(),
                e == self@.elevators,
                p == alive_fn(e),
                keys@.to_set() == e.dom(),
                keys@.filter(p).len() <= 255,
                elevators_alive_count == keys@.take(i as int).filter(p).len(),
            decreases keys.len() - i,
        {
            let k = keys[i];
            proof {
                assert(keys@.take(i + 1) =~= keys@.take(i as int).push(k));
                keys@.take(i as int).lemma_filter_len_push(p, k);
                keys@.lemma_filter_take_len(p, i + 1);
                assert(keys@.to_set().contains(k));
            }
            let elevator = self.elevator_statuses.get(&k).unwrap();
            if *elevator.get_dead_or_alive() == DeadOrAlive::Alive {
                elevators_alive_count += 1;
            }
            i += 1;
        }
        proof {
            assert(keys@.take(keys.len() as int) =~= keys@);
        }
        if elevators_alive_count < 1 {
            1
        } else {
            elevators_alive_count
        }
    }

    /// Whether fewer than 256 elevators are recorded as alive.
    pub fn alive_count_fits(&self) -> (fits: bool)
        ensures
            fits == (alive_count(self@.elevators) <= 255),
    {
        let ghost e = self@.elevators;
        let ghost p = alive_fn(e);
        let keys = map_keys(&self.elevator_statuses);
        proof {
            lemma_filter_len_to_set(keys@, p);
            assert(keys@.to_set().filter(p) =~= e.dom().filter(p));
        }
        let mut count: usize = 0;
        let mut i: usize = 0;
        while i < keys.len()
            invariant
                i <= keys.len(),
                e == self@.elevators,
                p == alive_fn(e),
                keys@.to_set() == e.dom(),
                count <= 256,
                count == (if keys@.take(i as int).filter(p).len() > 256 { 256 } else { keys@.take(i as int).filter(p).len() }),
            decreases keys.len() - i,
        {
            let k = keys[i];
            proof {
                assert(keys@.take(i + 1) =~= keys@.take(i as int).push(k));
                keys@.take(i as int).lemma_filter_len_push(p, k);
                assert(keys@.to_set().contains(k));
            }
            let elevator = self.elevator_statuses.get(&k).unwrap();
            if *elevator.get_dead_or_alive() == DeadOrAlive::Alive && count < 256 {
                count += 1;
            }
            i += 1;
        }
        proof {
            assert(keys@.take(keys.len() as int) =~= keys@);
        }
        count <= 255
    }

    /// One pass of the hall and cab status managers, with as many elevators
    /// taking part as are recorded alive (at least one).
    pub fn maintain_order_statuses(&mut self)
        requires
            old(self)@.wf(),
            alive_count(old(self)@.elevators) <= 255,
        ensures
            final(self)@ == maintained(old(self)@),
            final(self)@.wf(),
    {
        let elevators_alive_count = self.alive_elevators_count();
        self.hall_order_queue.hall_order_status_manager(elevators_alive_count);
        self.cab_order_status_manager(elevators_alive_count);
        proof {
            let s = old(self)@;
            let n = participants(s.elevators);
            assert forall|k: u16| #[trigger] managed_orders(s.hall.orders, n).contains_key(k)
                implies managed_orders(s.hall.orders, n)[k].order_id == k by {
                assert(s.hall.orders.contains_key(k));
            }
        }
    }

    /// Applies a change to the hall order queue (see `hall_command_result`).
    pub fn edit_hall_order_queue(&mut self, command: HallOrderQueueCommand)
        ensures
            final(self)@ == hall_command_result(old(self)@, command),
            old(self)@.wf() ==> final(self)@.wf(),
    {
        match command {
            HallOrderQueueCommand::AddToHallOrderQueue { order } => self.add_to_hall_order_queue(order),
            HallOrderQueueCommand::RemoveFromHallOrderQueue { order_id } => {
                self.hall_order_queue.remove_from_queue(order_id)
            },
            HallOrderQueueCommand::SetHallOrderStatus { order_id, status } => {
                self.set_hall_order_status(order_id, status)
            },
            HallOrderQueueCommand::SetAckBarrier { order_id, barrier } => {
                match self.hall_order_queue.get_mut_hall_order(order_id) {
                    Some(order) => order.set_ack_barrier(barrier),
                    None => {},
                }
            },
            HallOrderQueueCommand::InsertIntoAckBarrier { order_id, elevator_id } => {
                match self.hall_order_queue.get_mut_hall_order(order_id) {
                    Some(order) => order.insert_into_ack_barrier(elevator_id),
                    None => {},
                }
            },
        }
    }

    /// Applies a change to one elevator's record, or merges a received
    /// picture (see `elevator_command_result`).
    pub fn edit_elevator_status(&mut self, command: ElevatorStatusCommand)
        requires
            elevator_command_allowed(old(self)@, command),
        ensures
            final(self)@ == elevator_command_result(old(self)@, command),
            old(self)@.wf() ==> final(self)@.wf(),
    {
        match command {
            ElevatorStatusCommand::SetDeadOrAlive { elevator_id, dead_or_alive } => {
                self.set_elev_dead_or_alive(elevator_id, dead_or_alive)
            },
            ElevatorStatusCommand::SetFloor { elevator_id, floor } => {
                self.set_elev_current_floor(elevator_id, floor)
            },
            ElevatorStatusCommand::SetDirection { elevator_id, dir } => {
                self.set_elev_direction(elevator_id, dir)
            },
            ElevatorStatusCommand::SetObstruction { elevator_id, obstruction } => {
                self.set_elev_obstruction(elevator_id, obstruction)
            },
            ElevatorStatusCommand::SetBehaviour { elevator_id, behavior } => {
                self.set_elev_behaviour(elevator_id, behavior)
            },
            ElevatorStatusCommand::SetCabOrders { elevator_id, orders } => {
                self.set_elev_cab_orders(elevator_id, orders)
            },
            ElevatorStatusCommand::AddCabOrder { elevator_id, order } => {
                self.add_elev_cab_order(elevator_id, order)
            },
            ElevatorStatusCommand::RemoveCabOrder { elevator_id } => {
                self.remove_elev_cab_order(elevator_id)
            },
            ElevatorStatusCommand::SetCabOrderStatus { elevator_id, order_id, status } => {
                self.set_elev_cab_order_status(elevator_id, order_id, status)
            },
            ElevatorStatusCommand::SynchronizeWorldView { world_view } => {
                self.synchronize_world_view(world_view)
            },
        }
    }

    /// Whether this picture and `incoming` are pictures that a merge accepts
    /// (see `sync_allowed`).
    pub fn can_synchronize(&self, incoming: &WorldView) -> (ok: bool)
        ensures
            ok == sync_allowed(self@, incoming@),
    {
        let ghost s = self@;
        let ghost inc = incoming@;
        if !self.elevator_statuses.contains_key(&self.my_elevator_id)
            || !self.hall_order_queue.is_keyed_by_id()
            || !incoming.hall_order_queue.is_keyed_by_id() {
            return false;
        }
        let my_id = self.my_elevator_id;
        let inc_res = match self.recorded_session_ids.get(&incoming.my_elevator_id) {
            Some(r) => *r != incoming.my_session_id,
            None => false,
        };
        let me_res = match incoming.recorded_session_ids.get(&my_id) {
            Some(r) => *r != self.my_session_id,
            None => false,
        };
        let ghost w1 = counters_with_new(s.write_counters, inc, my_id, me_res);
        assert(inc_res == incoming_resurrected(s, inc));
        assert(me_res == me_resurrected(s, inc));
        let ids = map_keys(&incoming.recorded_session_ids);
        let mut i: usize = 0;
        while i < ids.len()
            invariant
                i <= ids.len(),
                ids@.to_set() == inc.session_ids.dom(),
                s == self@,
                inc == incoming@,
                my_id == s.my_id,
                inc_res == incoming_resurrected(s, inc),
                me_res == me_resurrected(s, inc),
                w1 == counters_with_new(s.write_counters, inc, my_id, me_res),
                forall|j: int|
                    0 <= j < i ==> (#[trigger] adopted(w1, inc, my_id, me_res, inc_res, ids@[j])
                        ==> inc.elevators.contains_key(ids@[j])),
            decreases ids.len() - i,
        {
            let id = ids[i];
            assert(ids@.to_set().contains(id));
            if !(id == my_id && !me_res) && !inc_res {
                let incoming_counter = incoming.get_elev_write_counter(id);
                let recorded = match self.write_counters.get(&id) {
                    Some(c) => *c,
                    None => incoming_counter,
                };
                assert(counter_of(w1, id) == recorded);
                if incoming.write_counters.contains_key(&id) && counter_newer(incoming_counter, recorded, me_res)
                    && !incoming.elevator_statuses.contains_key(&id) {
                    assert(adopted(w1, inc, my_id, me_res, inc_res, id));
                    assert(!inc.elevators.contains_key(id));
                    assert(adopted(
                        counters_with_new(s.write_counters, inc, s.my_id, me_resurrected(s, inc)),
                        inc,
                        s.my_id,
                        me_resurrected(s, inc),
                        incoming_resurrected(s, inc),
                        id,
                    ));
                    return false;
                }
            }
            i += 1;
        }
        assert forall|k: u16| #[trigger] adopted(w1, inc, my_id, me_res, inc_res, k)
            implies inc.elevators.contains_key(k) by {
            assert(ids@.to_set().contains(k));
            let j = choose|j: int| 0 <= j < ids@.len() && ids@[j] == k;
            assert(adopted(w1, inc, my_id, me_res, inc_res, ids@[j]));
        }
        true
    }

    /// Whether `edit_elevator_status` accepts `command` on this picture.
    pub fn can_edit_elevator_status(&self, command: &ElevatorStatusCommand) -> (ok: bool)
        ensures
            ok == elevator_command_allowed(self@, *command),
    {
        match command {
            ElevatorStatusCommand::SetDeadOrAlive { elevator_id, .. } => self.elevator_statuses.contains_key(elevator_id),
            ElevatorStatusCommand::SetBehaviour { elevator_id, .. } => self.elevator_statuses.contains_key(elevator_id),
            ElevatorStatusCommand::SetObstruction { elevator_id, .. } => self.elevator_statuses.contains_key(elevator_id),
            ElevatorStatusCommand::SetFloor { elevator_id, .. } => self.elevator_statuses.contains_key(elevator_id),
            ElevatorStatusCommand::SetDirection { elevator_id, .. } => self.elevator_statuses.contains_key(elevator_id),
            ElevatorStatusCommand::SetCabOrders { elevator_id, .. } => self.elevator_statuses.contains_key(elevator_id),
            ElevatorStatusCommand::AddCabOrder { elevator_id, .. } => self.elevator_statuses.contains_key(elevator_id),
            ElevatorStatusCommand::RemoveCabOrder { elevator_id } => self.elevator_statuses.contains_key(elevator_id),
            ElevatorStatusCommand::SetCabOrderStatus { elevator_id, .. } => self.elevator_statuses.contains_key(elevator_id),
            ElevatorStatusCommand::SynchronizeWorldView { world_view } => self.can_synchronize(world_view),
        }
    }
}

/// Whether two maps of records hold records with the same views under the
/// same keys.
pub fn same_elevator_maps(a: &HashMap<u16, Elevator>, b: &HashMap<u16, Elevator>) -> (same: bool)
    ensures
        same == (elevator_map_views(a@) == elevator_map_views(b@)),
{
    let ghost va = elevator_map_views(a@);
    let ghost vb = elevator_map_views(b@);
    let keys_a = map_keys(a);
    let mut i: usize = 0;
    while i < keys_a.len()
        invariant
            i <= keys_a.len(),
            keys_a@.to_set() == a@.dom(),
            va == elevator_map_views(a@),
            vb == elevator_map_views(b@),
            forall|j: int| 0 <= j < i ==> #[trigger] vb.contains_key(keys_a@[j]) && va[keys_a@[j]] == vb[keys_a@[j]],
        decreases keys_a.len() - i,
    {
        let k = keys_a[i];
        assert(keys_a@.to_set().contains(k));
        let ea = a.get(&k).unwrap();
        match b.get(&k) {
            Some(eb) => {
                if !ea.same_as(eb) {
                    assert(va[k] != vb[k]);
                    return false;
                }
            },
            None => {
                assert(va.contains_key(k) && !vb.contains_key(k));
                return false;
            },
        }
        i += 1;
    }
    let keys_b = map_keys(b);
    let mut j: usize = 0;
    while j < keys_b.len()
        invariant
            j <= keys_b.len(),
            keys_b@.to_set() == b@.dom(),
            va == elevator_map_views(a@),
            vb == elevator_map_views(b@),
            forall|t: int| 0 <= t < j ==> #[trigger] va.contains_key(keys_b@[t]),
        decreases keys_b.len() - j,
    {
        let k = keys_b[j];
        assert(keys_b@.to_set().contains(k));
        if !a.contains_key(&k) {
            assert(vb.contains_key(k) && !va.contains_key(k));
            return false;
        }
        j += 1;
    }
    proof {
        assert forall|k: u16| va.contains_key(k) implies vb.contains_key(k) && va[k] == vb[k] by {
            assert(keys_a@.to_set().contains(k));
            let t = choose|t: int| 0 <= t < keys_a@.len() && keys_a@[t] == k;
            assert(vb.contains_key(keys_a@[t]));
        }
        assert forall|k: u16| vb.contains_key(k) implies va.contains_key(k) by {
            assert(keys_b@.to_set().contains(k));
            let t = choose|t: int| 0 <= t < keys_b@.len() && keys_b@[t] == k;
            assert(va.contains_key(keys_b@[t]));
        }
        assert(va =~= vb);
    }
    true
}

impl WorldView {
    /// Whether the two pictures agree in every part.
    pub fn same_as(&self, other: &WorldView) -> (same: bool)
        ensures
            same == (self@ == other@),
    {
        self.my_elevator_id == other.my_elevator_id && self.my_session_id == other.my_session_id
            && same_elevator_maps(&self.elevator_statuses, &other.elevator_statuses)
            && self.hall_order_queue.same_as(&other.hall_order_queue)
            && same_u16_maps(&self.write_counters, &other.write_counters)
            && same_u16_maps(&self.recorded_session_ids, &other.recorded_session_ids)
    }
}

} // verus!
