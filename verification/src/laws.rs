use vstd::prelude::*;

use crate::hallorder_decision::{
    assigner_input_spec, confirmed_orders, has_request,
    answers_call, assignment_table, call_order, decimal_digits, has_call_order, is_least_call_order, lemma_decimal_digits,
    orders_for_calls, parse_decimal_u16,
};
use crate::hardware::{tick, ElevatorData, FloorDirection, MotorState};
use crate::hardware_execution::{
    directions_to_clear, has_direction_at,
    door_deadline, execution_step, light_actions, nearest_floor, open_orders, since, travel_state, travel_timed_out,
    HardwareAction, HardwareExecutionState, DIRN_STOP, DOOR_OPEN_MS,
};
use crate::memory::elevator::{first_index, lemma_first_index, Behaviour, DeadOrAlive, ElevatorDirection, ElevatorView, Obstruction};
use crate::memory::hall_order_queue::{keyed_by_id, fully_acknowledged, managed_orders, ready_for_removal, removed_ids, status_step};
use crate::memory::orders::{Order, lemma_merge_barrier_union, merge_barrier, status_rank, OrderDirection, OrderStatus, OrderType, OrderView};
use crate::memory::world_view::{
    alive_fn, counter_is_newer, sync_allowed, WorldView, ack_unacknowledged, adopted, adopted_elevators, alive_count, cab_orders_with_status, counters_with_new, incoming_resurrected, me_resurrected, HallOrderQueueCommand, merge_ack_first, merge_cab_acks, elevator_command_allowed, elevator_command_result, hall_command_result, synced_hall_orders, maintained, managed_cab_orders, not_in_fn, ready_fn, step_fn, ElevatorStatusCommand, MemoryCommand, next_counter, participants, sender_newer, sync_result, WorldViewState,
};
use crate::memory::memory_events::{event_result, MemoryStateView, PEER_TIMEOUT_MS, elevator_handed_on, loop_step, own_record, world_handed_on, LoopView, MemoryEvent};
use crate::message::hardware_msg::HardwareData;

verus! {

// ---------------------------------------------------------------------------
// Order life cycle

/// An order's status never goes back: one pass of the status manager leaves
/// it where it is or moves it on by exactly one step.
pub proof fn law_status_step_never_regresses(o: OrderView, n: nat)
    ensures
        status_rank(status_step(o, n).order_status) == status_rank(o.order_status)
            || status_rank(status_step(o, n).order_status) == status_rank(o.order_status) + 1,
        status_step(o, n).order_id == o.order_id,
{
}

/// An order is confirmed, or made ready for deletion, only once every
/// elevator taking part has acknowledged it; and then its barrier starts
/// empty for the next status.
pub proof fn law_status_moves_only_when_acknowledged(o: OrderView, n: nat)
    ensures
        status_step(o, n).order_status != o.order_status ==> fully_acknowledged(o, n)
            && status_step(o, n).ack_barrier == Seq::<u16>::empty(),
        status_step(o, n).order_status == OrderStatus::Confirmed && o.order_status != OrderStatus::Confirmed
            ==> o.order_status == OrderStatus::Unconfirmed,
        status_step(o, n).order_status == OrderStatus::ReadyForDeletion && o.order_status
            != OrderStatus::ReadyForDeletion ==> o.order_status == OrderStatus::Completed,
{
}

/// The status manager keeps, under the same identifier, every hall order
/// that it does not drop, with its status kept or moved on; the orders it
/// drops are exactly those that `removed_ids` names.
pub proof fn law_managed_orders_partition(orders: Map<u16, OrderView>, n: nat)
    ensures
        forall|k: u16| #[trigger]
            managed_orders(orders, n).contains_key(k) ==> orders.contains_key(k) && status_rank(
                managed_orders(orders, n)[k].order_status,
            ) >= status_rank(orders[k].order_status),
        forall|k: u16|
            orders.contains_key(k) ==> (#[trigger] managed_orders(orders, n).contains_key(k)
                <==> !removed_ids(orders, n).contains(k)),
        forall|k: u16| #[trigger] removed_ids(orders, n).contains(k) ==> orders.contains_key(k),
{
    assert forall|k: u16| #[trigger] managed_orders(orders, n).contains_key(k) implies orders.contains_key(k)
        && status_rank(managed_orders(orders, n)[k].order_status) >= status_rank(orders[k].order_status) by {
        law_status_step_never_regresses(orders[k], n);
    }
}

/// Merging the same acknowledgements a second time changes nothing.
pub proof fn law_merge_barrier_idempotent(barrier: Seq<u16>, incoming: Seq<u16>)
    ensures
        merge_barrier(merge_barrier(barrier, incoming), incoming) == merge_barrier(barrier, incoming),
{
    lemma_merge_barrier_union(barrier, incoming);
    let m = merge_barrier(barrier, incoming);
    assert forall|i: int| 0 <= i < incoming.len() implies m.contains(#[trigger] incoming[i]) by {
        assert(incoming.to_set().contains(incoming[i]));
        assert(m.to_set().contains(incoming[i]));
    }
    lemma_merge_known(m, incoming);
}

proof fn lemma_merge_known(m: Seq<u16>, incoming: Seq<u16>)
    requires
        forall|i: int| 0 <= i < incoming.len() ==> m.contains(#[trigger] incoming[i]),
    ensures
        merge_barrier(m, incoming) == m,
    decreases incoming.len(),
{
    if incoming.len() > 0 {
        let rest = incoming.drop_last();
        assert forall|i: int| 0 <= i < rest.len() implies m.contains(#[trigger] rest[i]) by {
            assert(rest[i] == incoming[i]);
        }
        lemma_merge_known(m, rest);
        assert(m.contains(incoming[incoming.len() - 1]));
    }
}

proof fn lemma_empty_barrier_unacknowledged(o: OrderView, n: nat)
    requires
        o.ack_barrier == Seq::<u16>::empty(),
        n >= 1,
    ensures
        !fully_acknowledged(o, n),
{
    assert(o.ack_barrier.to_set() =~= Set::<u16>::empty());
}

/// One pass of the status manager over `n >= 1` elevators is a resting
/// point: a second pass, with no acknowledgement added in between, changes
/// no hall order and drops none.
pub proof fn law_managed_orders_settle(orders: Map<u16, OrderView>, n: nat)
    requires
        n >= 1,
    ensures
        managed_orders(managed_orders(orders, n), n) == managed_orders(orders, n),
        removed_ids(managed_orders(orders, n), n) == Set::<u16>::empty(),
{
    let m1 = managed_orders(orders, n);
    assert forall|k: u16| #[trigger] m1.contains_key(k) implies !ready_for_removal(m1[k], n)
        && status_step(m1[k], n) == m1[k] by {
        let o = orders[k];
        if status_step(o, n) != o {
            lemma_empty_barrier_unacknowledged(status_step(o, n), n);
        }
    }
    assert(managed_orders(m1, n) =~= m1);
    assert(removed_ids(m1, n) =~= Set::<u16>::empty());
}

proof fn lemma_filter_keeps_all(s: Seq<OrderView>, p: spec_fn(OrderView) -> bool)
    requires
        forall|i: int| 0 <= i < s.len() ==> p(#[trigger] s[i]),
    ensures
        s.filter(p) == s,
    decreases s.len(),
{
    if s.len() == 0 {
        s.lemma_filter_len(p);
        assert(s.filter(p) =~= s);
    } else {
        let rest = s.drop_last();
        assert forall|i: int| 0 <= i < rest.len() implies p(#[trigger] rest[i]) by {
            assert(rest[i] == s[i]);
        }
        lemma_filter_keeps_all(rest, p);
        rest.lemma_filter_push(s.last(), p);
        assert(rest.push(s.last()) =~= s);
    }
}

/// One pass of the cab status manager over `n >= 1` elevators is a resting
/// point: a second pass, with no acknowledgement added in between, changes
/// no cab order and drops none.
pub proof fn law_managed_cab_orders_settle(c: Seq<OrderView>, n: nat)
    requires
        n >= 1,
    ensures
        managed_cab_orders(managed_cab_orders(c, n), n) == managed_cab_orders(c, n),
{
    let removed = c.filter(ready_fn(n));
    let stepped = c.map_values(step_fn(n));
    let m1 = stepped.filter(not_in_fn(removed));
    assert(m1 == managed_cab_orders(c, n));
    assert forall|i: int| 0 <= i < m1.len() implies !ready_for_removal(#[trigger] m1[i], n) && status_step(m1[i], n)
        == m1[i] by {
        let x = m1[i];
        assert(m1.contains(x));
        stepped.lemma_filter_contains_rev(not_in_fn(removed), x);
        stepped.lemma_filter_pred(not_in_fn(removed), i);
        let j = choose|j: int| 0 <= j < stepped.len() && stepped[j] == x;
        let o = c[j];
        assert(x == status_step(o, n));
        if status_step(o, n) != o {
            lemma_empty_barrier_unacknowledged(x, n);
        } else if ready_for_removal(o, n) {
            c.lemma_filter_contains(ready_fn(n), j);
            assert(removed.contains(x));
        }
    }
    let removed2 = m1.filter(ready_fn(n));
    if removed2.len() > 0 {
        m1.lemma_filter_pred(ready_fn(n), 0);
        assert(removed2.contains(removed2[0]));
        m1.lemma_filter_contains_rev(ready_fn(n), removed2[0]);
    }
    assert(removed2 =~= Seq::<OrderView>::empty());
    let stepped2 = m1.map_values(step_fn(n));
    assert(stepped2 =~= m1);
    lemma_filter_keeps_all(stepped2, not_in_fn(removed2));
}

/// Both status managers settle in one pass: with no acknowledgement added
/// in between, a second pass leaves the picture as the first left it.
pub proof fn law_maintained_settles(s: WorldViewState)
    requires
        s.wf(),
    ensures
        maintained(maintained(s)) == maintained(s),
{
    let n = participants(s.elevators);
    let m = maintained(s);
    assert(m.elevators.dom() =~= s.elevators.dom());
    assert(m.elevators.dom().filter(alive_fn(m.elevators)) =~= s.elevators.dom().filter(alive_fn(s.elevators)));
    assert(participants(m.elevators) == n);
    law_managed_orders_settle(s.hall.orders, n);
    assert(m.hall.pending_cleanup + removed_ids(m.hall.orders, n) =~= m.hall.pending_cleanup);
    law_managed_cab_orders_settle(s.elevators[s.my_id].cab_orders, n);
    assert(maintained(m).elevators =~= m.elevators);
}

// ---------------------------------------------------------------------------
// What every edit keeps

/// A change that a method of `Order` makes: `set_order_status`,
/// `set_ack_barrier` (or a write through `get_mut_ack_barrier`),
/// `insert_into_ack_barrier`, `merge_ack_barrier` and `acknowledge`.
pub enum OrderChange {
    SetStatus(OrderStatus),
    SetBarrier(Seq<u16>),
    InsertAck(u16),
    MergeAcks(Seq<u16>),
    Acknowledge(u16),
}

/// An order after one change, as the method's own contract says.
pub open spec fn order_changed(o: OrderView, c: OrderChange) -> OrderView {
    match c {
        OrderChange::SetStatus(status) => o.with_status(status),
        OrderChange::SetBarrier(barrier) => o.with_barrier(barrier),
        OrderChange::InsertAck(id) => o.with_barrier(o.ack_barrier.push(id)),
        OrderChange::MergeAcks(incoming) => o.with_barrier(merge_barrier(o.ack_barrier, incoming)),
        OrderChange::Acknowledge(id) => o.with_ack(id),
    }
}

/// An order after a sequence of changes, first to last.
pub open spec fn order_after(o: OrderView, changes: Seq<OrderChange>) -> OrderView
    decreases changes.len(),
{
    if changes.len() == 0 {
        o
    } else {
        order_changed(order_after(o, changes.drop_last()), changes.last())
    }
}

/// An order's identifier, floor, type and direction never change, whatever
/// its methods do to it (a clone, whose view equals its source's, keeps them
/// too).
pub proof fn law_order_identity_kept(o: OrderView, changes: Seq<OrderChange>)
    ensures
        order_after(o, changes).order_id == o.order_id,
        order_after(o, changes).floor == o.floor,
        order_after(o, changes).order_type == o.order_type,
        order_after(o, changes).direction == o.direction,
    decreases changes.len(),
{
    if changes.len() > 0 {
        law_order_identity_kept(o, changes.drop_last());
    }
}

/// An order's status is the one its last status change set: the changes of
/// its barrier that follow leave the status alone.
pub proof fn law_order_status_is_last_set(o: OrderView, changes: Seq<OrderChange>, i: int, status: OrderStatus)
    requires
        0 <= i < changes.len(),
        changes[i] == OrderChange::SetStatus(status),
        forall|j: int| i < j < changes.len() ==> !(#[trigger] changes[j] is SetStatus),
    ensures
        order_after(o, changes).order_status == status,
    decreases changes.len(),
{
    if i < changes.len() - 1 {
        let rest = changes.drop_last();
        assert(rest[i] == changes[i]);
        assert forall|j: int| i < j < rest.len() implies !(#[trigger] rest[j] is SetStatus) by {
            assert(rest[j] == changes[j]);
        }
        law_order_status_is_last_set(o, rest, i, status);
        assert(!(changes[changes.len() - 1] is SetStatus));
    }
}

/// A change that a method of `Elevator` makes: the setters,
/// `set_cab_orders` (or a write through `get_mut_cab_orders`),
/// `add_cab_order` and `remove_cab_order`.
pub enum ElevatorChange {
    SetDeadOrAlive(DeadOrAlive),
    SetBehaviour(Behaviour),
    SetObstruction(Obstruction),
    SetFloor(u8),
    SetDirection(ElevatorDirection),
    SetCabOrders(Seq<OrderView>),
    AddCabOrder(OrderView),
    RemoveCabOrder,
}

/// An elevator record after one change, as the method's own contract says.
pub open spec fn elevator_changed(e: ElevatorView, c: ElevatorChange) -> ElevatorView {
    match c {
        ElevatorChange::SetDeadOrAlive(dead_or_alive) => ElevatorView { dead_or_alive, ..e },
        ElevatorChange::SetBehaviour(behaviour) => ElevatorView { behaviour, ..e },
        ElevatorChange::SetObstruction(obstruction) => ElevatorView { obstruction, ..e },
        ElevatorChange::SetFloor(floor) => ElevatorView { floor, ..e },
        ElevatorChange::SetDirection(direction) => ElevatorView { direction, ..e },
        ElevatorChange::SetCabOrders(orders) => e.with_cab_orders(orders),
        ElevatorChange::AddCabOrder(order) => e.with_cab_orders(e.cab_orders.push(order)),
        ElevatorChange::RemoveCabOrder => e.with_cab_orders(
            if e.cab_orders.len() == 0 {
                e.cab_orders
            } else {
                e.cab_orders.drop_first()
            },
        ),
    }
}

/// An elevator record after a sequence of changes, first to last.
pub open spec fn elevator_after(e: ElevatorView, changes: Seq<ElevatorChange>) -> ElevatorView
    decreases changes.len(),
{
    if changes.len() == 0 {
        e
    } else {
        elevator_changed(elevator_after(e, changes.drop_last()), changes.last())
    }
}

/// No method changes an elevator record's identifier or session.
pub proof fn law_elevator_identity_kept(e: ElevatorView, changes: Seq<ElevatorChange>)
    ensures
        elevator_after(e, changes).elevator_id == e.elevator_id,
        elevator_after(e, changes).session_id == e.session_id,
    decreases changes.len(),
{
    if changes.len() > 0 {
        law_elevator_identity_kept(e, changes.drop_last());
    }
}

/// What `edit_elevator_status` or `edit_hall_order_queue` does with a
/// command.
pub open spec fn command_result(s: WorldViewState, c: MemoryCommand) -> WorldViewState {
    match c {
        MemoryCommand::ElevatorStatus(e) => elevator_command_result(s, e),
        MemoryCommand::HallOrderQueue(h) => hall_command_result(s, h),
    }
}

/// Whether the edit functions accept a command (see
/// `elevator_command_allowed`; every hall command is accepted).
pub open spec fn command_allowed(s: WorldViewState, c: MemoryCommand) -> bool {
    match c {
        MemoryCommand::ElevatorStatus(e) => elevator_command_allowed(s, e),
        MemoryCommand::HallOrderQueue(_) => true,
    }
}

/// A picture after a sequence of commands, first to last.
pub open spec fn after_commands(s: WorldViewState, commands: Seq<MemoryCommand>) -> WorldViewState
    decreases commands.len(),
{
    if commands.len() == 0 {
        s
    } else {
        command_result(after_commands(s, commands.drop_last()), commands.last())
    }
}

/// Whether each command of the sequence is accepted where it comes.
pub open spec fn commands_allowed(s: WorldViewState, commands: Seq<MemoryCommand>) -> bool
    decreases commands.len(),
{
    commands.len() == 0 || (commands_allowed(s, commands.drop_last()) && command_allowed(
        after_commands(s, commands.drop_last()),
        commands.last(),
    ))
}

/// Edits and merges never change a picture's own identifier or session,
/// and never remove an elevator record: each record there before is there
/// after, the own one included.
pub proof fn law_world_view_identity_kept(s: WorldViewState, commands: Seq<MemoryCommand>)
    ensures
        after_commands(s, commands).my_id == s.my_id,
        after_commands(s, commands).my_session_id == s.my_session_id,
        forall|k: u16| #[trigger]
            s.elevators.contains_key(k) ==> after_commands(s, commands).elevators.contains_key(k),
    decreases commands.len(),
{
    if commands.len() > 0 {
        let rest = commands.drop_last();
        law_world_view_identity_kept(s, rest);
        let mid = after_commands(s, rest);
        if let MemoryCommand::ElevatorStatus(ElevatorStatusCommand::SynchronizeWorldView { world_view }) = commands.last() {
            law_sync_keeps_elevators(mid, world_view@);
        }
    }
}

proof fn lemma_synced_hall_orders_keyed(s: WorldViewState, incoming: WorldViewState)
    requires
        keyed_by_id(s.hall.orders),
        keyed_by_id(incoming.hall.orders),
    ensures
        keyed_by_id(synced_hall_orders(s, incoming)),
{
}

/// A picture stays well formed under every accepted edit and merge: every
/// picture a controller builds with `WorldView::new` and then edits, and so
/// every picture it broadcasts, holds its own record and files each hall
/// order under its identifier.
pub proof fn law_commands_keep_well_formed(s: WorldViewState, commands: Seq<MemoryCommand>)
    requires
        s.wf(),
        commands_allowed(s, commands),
    ensures
        after_commands(s, commands).wf(),
    decreases commands.len(),
{
    if commands.len() > 0 {
        let rest = commands.drop_last();
        law_commands_keep_well_formed(s, rest);
        let mid = after_commands(s, rest);
        match commands.last() {
            MemoryCommand::ElevatorStatus(ElevatorStatusCommand::SynchronizeWorldView { world_view }) => {
                law_sync_keeps_elevators(mid, world_view@);
                lemma_synced_hall_orders_keyed(mid, world_view@);
            },
            _ => {},
        }
    }
}

// ---------------------------------------------------------------------------
// The memory loop

/// The memory loop after a sequence of events, first to last.
pub open spec fn loop_after(l: LoopView, events: Seq<MemoryEvent>) -> LoopView
    decreases events.len(),
{
    if events.len() == 0 {
        l
    } else {
        loop_step(loop_after(l, events.drop_last()), events.last())
    }
}

/// The records the memory loop hands on over a sequence of events, in order.
pub open spec fn elevators_handed_on(l: LoopView, events: Seq<MemoryEvent>) -> Seq<ElevatorView>
    decreases events.len(),
{
    if events.len() == 0 {
        Seq::empty()
    } else {
        let prev = elevators_handed_on(l, events.drop_last());
        match elevator_handed_on(loop_after(l, events.drop_last()), events.last()) {
            Some(x) => prev.push(x),
            None => prev,
        }
    }
}

/// The pictures the memory loop hands on over a sequence of events, in
/// order.
pub open spec fn worlds_handed_on(l: LoopView, events: Seq<MemoryEvent>) -> Seq<WorldViewState>
    decreases events.len(),
{
    if events.len() == 0 {
        Seq::empty()
    } else {
        let prev = worlds_handed_on(l, events.drop_last());
        match world_handed_on(loop_after(l, events.drop_last()), events.last()) {
            Some(x) => prev.push(x),
            None => prev,
        }
    }
}

/// Over any sequence of events, after each of which the status managers
/// run, the memory loop never hands on the same record, or the same picture,
/// twice in a row; the first one it hands on differs from the one it had
/// handed on before; and on a fresh start the first event hands on both.
/// After every turn the last record and picture handed on are the current
/// ones.
pub proof fn law_memory_loop_hands_on_changes(l: LoopView, events: Seq<MemoryEvent>)
    ensures
        forall|i: int|
            0 <= i < elevators_handed_on(l, events).len() - 1 ==> #[trigger] elevators_handed_on(l, events)[i]
                != elevators_handed_on(l, events)[i + 1],
        forall|i: int|
            0 <= i < worlds_handed_on(l, events).len() - 1 ==> #[trigger] worlds_handed_on(l, events)[i]
                != worlds_handed_on(l, events)[i + 1],
        elevators_handed_on(l, events).len() > 0 ==> l.last_elevator != Some(elevators_handed_on(l, events)[0]),
        worlds_handed_on(l, events).len() > 0 ==> l.last_world != Some(worlds_handed_on(l, events)[0]),
        l.last_elevator is None && events.len() > 0 ==> elevators_handed_on(l, events).len() > 0,
        l.last_world is None && events.len() > 0 ==> worlds_handed_on(l, events).len() > 0,
        loop_after(l, events).last_elevator == (if elevators_handed_on(l, events).len() > 0 {
            Some(elevators_handed_on(l, events).last())
        } else {
            l.last_elevator
        }),
        loop_after(l, events).last_world == (if worlds_handed_on(l, events).len() > 0 {
            Some(worlds_handed_on(l, events).last())
        } else {
            l.last_world
        }),
        events.len() > 0 ==> loop_after(l, events).last_elevator == Some(own_record(loop_after(l, events).memory)),
        events.len() > 0 ==> loop_after(l, events).last_world == Some(loop_after(l, events).memory.world),
    decreases events.len(),
{
    if events.len() > 0 {
        let rest = events.drop_last();
        law_memory_loop_hands_on_changes(l, rest);
        let prev_e = elevators_handed_on(l, rest);
        let prev_w = worlds_handed_on(l, rest);
        let cur_e = elevators_handed_on(l, events);
        let cur_w = worlds_handed_on(l, events);
        assert forall|i: int| 0 <= i < cur_e.len() - 1 implies #[trigger] cur_e[i] != cur_e[i + 1] by {
            if i + 1 < prev_e.len() {
                assert(cur_e[i] == prev_e[i] && cur_e[i + 1] == prev_e[i + 1]);
            } else {
                assert(cur_e[i] == prev_e.last());
            }
        }
        assert forall|i: int| 0 <= i < cur_w.len() - 1 implies #[trigger] cur_w[i] != cur_w[i + 1] by {
            if i + 1 < prev_w.len() {
                assert(cur_w[i] == prev_w[i] && cur_w[i + 1] == prev_w[i + 1]);
            } else {
                assert(cur_w[i] == prev_w.last());
            }
        }
        if prev_e.len() > 0 {
            assert(cur_e[0] == prev_e[0]);
        }
        if prev_w.len() > 0 {
            assert(cur_w[0] == prev_w[0]);
        }
    }
}

proof fn lemma_merge_ack_first_grows(orders: Seq<OrderView>, order_id: u16, barrier: Seq<u16>)
    ensures
        merge_ack_first(orders, order_id, barrier).len() == orders.len(),
        forall|i: int|
            0 <= i < orders.len() ==> {
                let r = #[trigger] merge_ack_first(orders, order_id, barrier)[i];
                &&& same_order_but_barrier(r, orders[i])
                &&& orders[i].ack_barrier.is_prefix_of(r.ack_barrier)
            },
{
    lemma_first_index(orders, order_id);
    if let Some(j) = first_index(orders, order_id) {
        lemma_merge_barrier_union(orders[j].ack_barrier, barrier);
    }
    assert forall|i: int| 0 <= i < orders.len() implies orders[i].ack_barrier.is_prefix_of(orders[i].ack_barrier) by {
        assert(orders[i].ack_barrier =~= orders[i].ack_barrier.subrange(0, orders[i].ack_barrier.len() as int));
    }
}

/// Merging a peer's acknowledgements of this elevator's cab orders loses
/// none: every order stays where it is, with its identifier and status, and
/// its barrier only grows at the end (the rest of each order is kept too).
pub proof fn law_cab_ack_merge_keeps_acks(local: Seq<OrderView>, incoming: Seq<OrderView>)
    ensures
        merge_cab_acks(local, incoming).len() == local.len(),
        forall|i: int|
            0 <= i < local.len() ==> {
                let r = #[trigger] merge_cab_acks(local, incoming)[i];
                &&& same_order_but_barrier(r, local[i])
                &&& local[i].ack_barrier.is_prefix_of(r.ack_barrier)
            },
    decreases incoming.len(),
{
    if incoming.len() == 0 {
        assert forall|i: int| 0 <= i < local.len() implies local[i].ack_barrier.is_prefix_of(local[i].ack_barrier) by {
            assert(local[i].ack_barrier =~= local[i].ack_barrier.subrange(0, local[i].ack_barrier.len() as int));
        }
    } else {
        let mid = merge_cab_acks(local, incoming.drop_last());
        law_cab_ack_merge_keeps_acks(local, incoming.drop_last());
        lemma_merge_ack_first_grows(mid, incoming.last().order_id, incoming.last().ack_barrier);
        let r = merge_cab_acks(local, incoming);
        assert forall|i: int| 0 <= i < local.len() implies local[i].ack_barrier.is_prefix_of(
            #[trigger] r[i].ack_barrier,
        ) by {
            let a = local[i].ack_barrier;
            let b = mid[i].ack_barrier;
            let c = r[i].ack_barrier;
            assert(a.is_prefix_of(b));
            assert(b.is_prefix_of(c));
            assert forall|k: int| 0 <= k < a.len() implies a[k] == c[k] by {
                assert(a[k] == b.subrange(0, a.len() as int)[k]);
                assert(b[k] == c.subrange(0, b.len() as int)[k]);
            }
            assert(a =~= c.subrange(0, a.len() as int));
        }
    }
}

// ---------------------------------------------------------------------------
// Write counters

/// Every write is newer than the one it follows, also where the counter
/// wraps round; and no counter is newer than itself.
pub proof fn law_next_counter_is_newer(c: u16)
    ensures
        counter_is_newer(next_counter(c), c, false),
        !counter_is_newer(c, c, false),
{
}

/// Of two counters at most one is newer than the other (for a restarted
/// elevator, of two different counters).
pub proof fn law_counter_newer_asymmetric(a: u16, b: u16)
    ensures
        !(counter_is_newer(a, b, false) && counter_is_newer(b, a, false)),
        a != b ==> !(counter_is_newer(a, b, true) && counter_is_newer(b, a, true)),
{
}

// ---------------------------------------------------------------------------
// Merging pictures

/// Merging a peer's picture never loses a hall order and never moves one
/// back; where it leaves an order's status as it was, it loses none of the
/// order's acknowledgements.
pub proof fn law_sync_keeps_hall_orders(s: WorldViewState, incoming: WorldViewState)
    ensures
        forall|k: u16| #[trigger]
            s.hall.orders.contains_key(k) ==> {
                let r = sync_result(s, incoming).hall.orders;
                &&& r.contains_key(k)
                &&& status_rank(r[k].order_status) >= status_rank(s.hall.orders[k].order_status)
                &&& r[k].order_status == s.hall.orders[k].order_status ==> s.hall.orders[k].ack_barrier.to_set().subset_of(
                    r[k].ack_barrier.to_set(),
                )
            },
{
    assert forall|k: u16| #[trigger] s.hall.orders.contains_key(k) implies {
        let r = sync_result(s, incoming).hall.orders;
        &&& r.contains_key(k)
        &&& status_rank(r[k].order_status) >= status_rank(s.hall.orders[k].order_status)
        &&& r[k].order_status == s.hall.orders[k].order_status ==> s.hall.orders[k].ack_barrier.to_set().subset_of(
            r[k].ack_barrier.to_set(),
        )
    } by {
        let mine = s.hall.orders[k];
        if incoming.hall.orders.contains_key(k) {
            lemma_merge_barrier_union(mine.ack_barrier, incoming.hall.orders[k].ack_barrier);
        }
    }
}

/// An order that is pending clean-up and not held is not taken back in
/// from any peer's picture.
pub proof fn law_pending_not_retaken(s: WorldViewState, incoming: WorldViewState, k: u16)
    requires
        s.hall.pending_cleanup.contains(k),
        !s.hall.orders.contains_key(k),
    ensures
        !sync_result(s, incoming).hall.orders.contains_key(k),
{
}

/// A hall order that the status manager drops as finished does not come
/// back when a peer's picture is merged afterwards.
pub proof fn law_dropped_order_not_retaken(s: WorldViewState, incoming: WorldViewState, k: u16)
    requires
        removed_ids(s.hall.orders, participants(s.elevators)).contains(k),
    ensures
        !sync_result(maintained(s), incoming).hall.orders.contains_key(k),
{
    law_pending_not_retaken(maintained(s), incoming, k);
}

/// A picture that is not newer than what this elevator has recorded of its
/// sender, or whose sender has restarted since, leaves the hall orders as
/// they are.
pub proof fn law_stale_picture_keeps_hall(s: WorldViewState, incoming: WorldViewState)
    requires
        !sender_newer(s, incoming),
    ensures
        sync_result(s, incoming).hall == s.hall,
{
}

/// Merging a peer's picture keeps every elevator record, keeps this
/// elevator's identity, and records the sender's session.
pub proof fn law_sync_keeps_elevators(s: WorldViewState, incoming: WorldViewState)
    ensures
        forall|k: u16| #[trigger]
            s.elevators.contains_key(k) ==> sync_result(s, incoming).elevators.contains_key(k),
        sync_result(s, incoming).my_id == s.my_id,
        sync_result(s, incoming).my_session_id == s.my_session_id,
        sync_result(s, incoming).session_ids[incoming.my_id] == incoming.my_session_id,
{
}

// ---------------------------------------------------------------------------
// Door and motor

/// While the door is obstructed it stays open, and its three seconds start
/// again.
pub proof fn law_obstructed_door_stays_open(d: ElevatorData, reqs: Seq<FloorDirection>, now: u64)
    requires
        d.door_status,
        d.obstruction,
    ensures
        tick(d, reqs, now).0.door_status,
        tick(d, reqs, now).0.door_timeout == Some(now),
{
}

/// The door closes only once it has been open, unobstructed, for the full
/// door time.
pub proof fn law_door_closes_only_after_timeout(d: ElevatorData, reqs: Seq<FloorDirection>, now: u64)
    requires
        d.door_status,
        !tick(d, reqs, now).0.door_status,
    ensures
        !d.obstruction,
        d.door_timeout matches Some(t) && since(now, t) >= DOOR_OPEN_MS,
{
}

/// While the door is open the only motor command is stop, and it comes
/// last.
pub proof fn law_motor_stands_while_door_open(d: ElevatorData, reqs: Seq<FloorDirection>, now: u64)
    requires
        d.door_status,
    ensures
        tick(d, reqs, now).1.last() == HardwareData::SetMotorDirection(DIRN_STOP),
        forall|i: int|
            0 <= i < tick(d, reqs, now).1.len() && (#[trigger] tick(d, reqs, now).1[i]) is SetMotorDirection
                ==> tick(d, reqs, now).1[i] == HardwareData::SetMotorDirection(DIRN_STOP),
{
}

/// A car with its door closed at the floor it aims for, with a cab request
/// there, stops and opens its door.
pub proof fn law_cab_request_opens_door(d: ElevatorData, reqs: Seq<FloorDirection>, now: u64)
    requires
        !d.door_status,
        d.current_floor == d.next_stop,
        reqs[d.current_floor as int].cab,
    ensures
        tick(d, reqs, now).0.door_status,
        tick(d, reqs, now).0.motor_direction == MotorState::Stop,
        tick(d, reqs, now).0.door_timeout == Some(now),
{
}

// ---------------------------------------------------------------------------
// The hardware thread

/// A dead elevator stands with its door closed, and forgets its trip and
/// its door.
pub proof fn law_dead_elevator_stands(
    e: ElevatorView,
    hall: Seq<OrderView>,
    my_id: u16,
    st: HardwareExecutionState,
    num_floors: u8,
    now: u64,
)
    requires
        e.dead_or_alive == DeadOrAlive::Dead,
    ensures
        execution_step(e, hall, my_id, st, num_floors, now).0 == (HardwareExecutionState {
            door_open_until: None,
            direction_to_clear_after_wait: None,
            travel_target_floor: None,
            travel_start_time: None,
        }),
        execution_step(e, hall, my_id, st, num_floors, now).1.contains(HardwareAction::MotorDirection(DIRN_STOP)),
        execution_step(e, hall, my_id, st, num_floors, now).1.contains(HardwareAction::DoorLight(false)),
{
    let step = execution_step(e, hall, my_id, st, num_floors, now);
    let prefix = light_actions(e.cab_orders, hall, num_floors as nat).push(HardwareAction::FloorIndicator(e.floor));
    assert(step.1[prefix.len() as int] == HardwareAction::MotorDirection(DIRN_STOP));
    assert(step.1[prefix.len() + 1int] == HardwareAction::DoorLight(false));
}

/// An obstructed open door is held open: its deadline moves to the full
/// door time from now, and the door light stays on.
pub proof fn law_obstructed_door_held_open(
    e: ElevatorView,
    hall: Seq<OrderView>,
    my_id: u16,
    st: HardwareExecutionState,
    num_floors: u8,
    now: u64,
)
    requires
        e.dead_or_alive == DeadOrAlive::Alive,
        st.door_open_until is Some,
        e.obstruction == Obstruction::Obstructed,
    ensures
        execution_step(e, hall, my_id, st, num_floors, now).0.door_open_until == Some(door_deadline(now)),
        execution_step(e, hall, my_id, st, num_floors, now).1.contains(HardwareAction::DoorLight(true)),
{
    let step = execution_step(e, hall, my_id, st, num_floors, now);
    let prefix = light_actions(e.cab_orders, hall, num_floors as nat).push(HardwareAction::FloorIndicator(e.floor));
    assert(step.1[prefix.len() + 1int] == HardwareAction::DoorLight(true));
}

/// A trip that takes longer than the travel timeout makes a live elevator
/// report itself dead and stop its motor.
pub proof fn law_travel_timeout_reports_dead(
    e: ElevatorView,
    hall: Seq<OrderView>,
    my_id: u16,
    st: HardwareExecutionState,
    num_floors: u8,
    now: u64,
)
    requires
        e.dead_or_alive == DeadOrAlive::Alive,
        st.door_open_until is None,
        open_orders(e.cab_orders, hall).len() > 0,
        nearest_floor(open_orders(e.cab_orders, hall), e.floor) != e.floor,
        travel_timed_out(travel_state(st, nearest_floor(open_orders(e.cab_orders, hall), e.floor), now), now),
    ensures
        execution_step(e, hall, my_id, st, num_floors, now).1.contains(
            HardwareAction::Send(
                MemoryCommand::ElevatorStatus(
                    ElevatorStatusCommand::SetDeadOrAlive { elevator_id: my_id, dead_or_alive: DeadOrAlive::Dead },
                ),
            ),
        ),
        execution_step(e, hall, my_id, st, num_floors, now).1.contains(HardwareAction::MotorDirection(DIRN_STOP)),
{
    let step = execution_step(e, hall, my_id, st, num_floors, now);
    let prefix = light_actions(e.cab_orders, hall, num_floors as nat).push(HardwareAction::FloorIndicator(e.floor));
    assert(step.1[prefix.len() as int] == HardwareAction::Send(
        MemoryCommand::ElevatorStatus(
            ElevatorStatusCommand::SetDeadOrAlive { elevator_id: my_id, dead_or_alive: DeadOrAlive::Dead },
        ),
    ));
    assert(step.1[prefix.len() + 1int] == HardwareAction::MotorDirection(DIRN_STOP));
}

// ---------------------------------------------------------------------------
// Elevator names

/// An elevator identifier written in decimal reads back as the same
/// identifier: the names under which the assigner answers lead back to the
/// elevators they were written for.
pub proof fn law_decimal_round_trip(n: u16)
    ensures
        parse_decimal_u16(decimal_digits(n as nat)) == Some(n),
{
    lemma_decimal_digits(n as nat);
}

// ---------------------------------------------------------------------------
// Assignment

proof fn lemma_least_call_order_exists(orders: Map<u16, OrderView>, floor: int, direction: OrderDirection, k: u16)
    requires
        orders.contains_key(k),
        answers_call(orders[k], floor, direction),
    ensures
        exists|m: u16| is_least_call_order(orders, floor, direction, m),
    decreases k,
{
    if exists|j: u16| j < k && orders.contains_key(j) && answers_call(#[trigger] orders[j], floor, direction) {
        let j = choose|j: u16| j < k && orders.contains_key(j) && answers_call(#[trigger] orders[j], floor, direction);
        lemma_least_call_order_exists(orders, floor, direction, j);
    } else {
        assert(is_least_call_order(orders, floor, direction, k));
    }
}

proof fn lemma_call_order_given(orders: Map<u16, OrderView>, floor: int, direction: OrderDirection)
    requires
        has_call_order(orders, floor, direction),
    ensures
        orders.contains_key(call_order(orders, floor, direction)),
        orders[call_order(orders, floor, direction)].order_type == OrderType::Hall,
{
    let k = choose|k: u16| #![trigger orders[k]] orders.contains_key(k) && answers_call(orders[k], floor, direction);
    lemma_least_call_order_exists(orders, floor, direction, k);
}

/// Whether `o` is one of the given hall orders.
pub open spec fn given_hall_order(orders: Map<u16, OrderView>, o: OrderView) -> bool {
    exists|k: u16| #![trigger orders[k]] orders.contains_key(k) && orders[k] == o && o.order_type == OrderType::Hall
}

proof fn lemma_orders_for_calls_given(entries: Seq<[bool; 3]>, orders: Map<u16, OrderView>)
    ensures
        forall|i: int|
            0 <= i < orders_for_calls(entries, orders).len() ==> given_hall_order(
                orders,
                #[trigger] orders_for_calls(entries, orders)[i],
            ),
    decreases entries.len(),
{
    if entries.len() > 0 {
        let floor = entries.len() - 1;
        let prev = orders_for_calls(entries.drop_last(), orders);
        lemma_orders_for_calls_given(entries.drop_last(), orders);
        if has_call_order(orders, floor, OrderDirection::Up) {
            lemma_call_order_given(orders, floor, OrderDirection::Up);
            let k = call_order(orders, floor, OrderDirection::Up);
            assert(given_hall_order(orders, orders[k]));
        }
        if has_call_order(orders, floor, OrderDirection::Down) {
            lemma_call_order_given(orders, floor, OrderDirection::Down);
            let k = call_order(orders, floor, OrderDirection::Down);
            assert(given_hall_order(orders, orders[k]));
        }
        let r = orders_for_calls(entries, orders);
        assert forall|i: int| 0 <= i < r.len() implies given_hall_order(orders, #[trigger] r[i]) by {
            if i < prev.len() {
                let with_up = if entries.last()@[0] && has_call_order(orders, floor, OrderDirection::Up) {
                    prev.push(orders[call_order(orders, floor, OrderDirection::Up)])
                } else {
                    prev
                };
                assert(with_up[i] == prev[i]);
                assert(r[i] == with_up[i]);
            }
        }
    }
}

/// The assigner's answer hands out only hall orders it was given: every
/// order in every elevator's list is one of the given orders.
pub proof fn law_assignment_uses_given_orders(pairs: Seq<(Seq<char>, Seq<[bool; 3]>)>, orders: Map<u16, OrderView>)
    ensures
        forall|id: u16, i: int|
            #![trigger assignment_table(pairs, orders)[id][i]]
            assignment_table(pairs, orders).contains_key(id) && 0 <= i < assignment_table(pairs, orders)[id].len()
                ==> given_hall_order(orders, assignment_table(pairs, orders)[id][i]),
    decreases pairs.len(),
{
    if pairs.len() > 0 {
        let prev = assignment_table(pairs.drop_last(), orders);
        let table = assignment_table(pairs, orders);
        let last_id = parse_decimal_u16(pairs.last().0)->0;
        let last_orders = orders_for_calls(pairs.last().1, orders);
        law_assignment_uses_given_orders(pairs.drop_last(), orders);
        lemma_orders_for_calls_given(pairs.last().1, orders);
        assert forall|id: u16, i: int|
            table.contains_key(id) && 0 <= i < table[id].len() implies given_hall_order(orders, #[trigger] table[id][i]) by {
            if id == last_id {
                assert(table[id] == last_orders);
                assert(given_hall_order(orders, last_orders[i]));
            } else {
                assert(table[id] == prev[id]);
                assert(given_hall_order(orders, prev[id][i]));
            }
        }
    }
}

// ---------------------------------------------------------------------------
// What the operations are for

/// Whether two orders agree in all but their barriers.
pub open spec fn same_order_but_barrier(a: OrderView, b: OrderView) -> bool {
    &&& a.order_id == b.order_id
    &&& a.floor == b.floor
    &&& a.order_type == b.order_type
    &&& a.direction == b.direction
    &&& a.order_status == b.order_status
}

proof fn lemma_ack_unacknowledged_keeps_orders(local: Seq<OrderView>, incoming: Seq<OrderView>, my_id: u16)
    ensures
        ack_unacknowledged(local, incoming, my_id).len() == local.len(),
        forall|j: int|
            0 <= j < local.len() ==> same_order_but_barrier(
                #[trigger] ack_unacknowledged(local, incoming, my_id)[j],
                local[j],
            ),
    decreases incoming.len(),
{
    if incoming.len() > 0 {
        lemma_ack_unacknowledged_keeps_orders(local, incoming.drop_last(), my_id);
        let prev = ack_unacknowledged(local, incoming.drop_last(), my_id);
        lemma_first_index(prev, incoming.last().order_id);
    }
}

/// When a merge takes over the sender's record of elevator `k` (the sender
/// has not restarted, has a session for `k`, and its write counter for `k`
/// is newer), this elevator's record of `k` afterwards has the sender's
/// floor, behaviour, obstruction, direction and liveness, and the sender's
/// cab orders, position by position (only their acknowledgements may grow).
pub proof fn law_sync_adopts_newer_record(s: WorldViewState, incoming: WorldViewState, k: u16)
    requires
        sync_allowed(s, incoming),
        adopted(
            counters_with_new(s.write_counters, incoming, s.my_id, me_resurrected(s, incoming)),
            incoming,
            s.my_id,
            me_resurrected(s, incoming),
            incoming_resurrected(s, incoming),
            k,
        ),
    ensures
        sync_result(s, incoming).elevators.contains_key(k),
        sync_result(s, incoming).elevators[k].floor == incoming.elevators[k].floor,
        sync_result(s, incoming).elevators[k].behaviour == incoming.elevators[k].behaviour,
        sync_result(s, incoming).elevators[k].obstruction == incoming.elevators[k].obstruction,
        sync_result(s, incoming).elevators[k].direction == incoming.elevators[k].direction,
        sync_result(s, incoming).elevators[k].dead_or_alive == incoming.elevators[k].dead_or_alive,
        sync_result(s, incoming).elevators[k].cab_orders.len() == incoming.elevators[k].cab_orders.len(),
        forall|j: int|
            0 <= j < incoming.elevators[k].cab_orders.len() ==> same_order_but_barrier(
                #[trigger] sync_result(s, incoming).elevators[k].cab_orders[j],
                incoming.elevators[k].cab_orders[j],
            ),
{
    let me_res = me_resurrected(s, incoming);
    let inc_res = incoming_resurrected(s, incoming);
    let w1 = counters_with_new(s.write_counters, incoming, s.my_id, me_res);
    let am = adopted_elevators(s.elevators, w1, incoming, s.my_id, me_res, inc_res);
    let e = incoming.elevators[k];
    assert(incoming.elevators.contains_key(k));
    assert(am.contains_key(k));
    lemma_ack_unacknowledged_keeps_orders(e.cab_orders, e.cab_orders, s.my_id);
    assert(exists|x: u16| adopted(w1, incoming, s.my_id, me_res, inc_res, x));
    if k == s.my_id {
        let c = am[k].cab_orders;
        law_cab_ack_merge_keeps_acks(c, incoming.elevators[s.my_id].cab_orders);
        let r = sync_result(s, incoming).elevators[k].cab_orders;
        assert forall|j: int| 0 <= j < e.cab_orders.len() implies same_order_but_barrier(
            #[trigger] r[j],
            e.cab_orders[j],
        ) by {
            assert(same_order_but_barrier(c[j], e.cab_orders[j]));
            assert(same_order_but_barrier(r[j], c[j]));
        }
    }
}

/// The hall directions cleared on stopping at a floor answer the calls
/// there: with calls one way only, that way is cleared at once and nothing
/// is left for later; without calls nothing is cleared; whatever is cleared
/// now or later is a call at the floor, and what is left for later is the
/// other way from what is cleared now.
pub proof fn law_directions_to_clear_answer_calls(
    direction: ElevatorDirection,
    hall: Seq<OrderView>,
    all: Seq<OrderView>,
    floor: u8,
)
    ensures
        has_direction_at(hall, floor, OrderDirection::Up) && !has_direction_at(hall, floor, OrderDirection::Down)
            ==> directions_to_clear(direction, hall, all, floor) == (Some(OrderDirection::Up), None::<OrderDirection>),
        has_direction_at(hall, floor, OrderDirection::Down) && !has_direction_at(hall, floor, OrderDirection::Up)
            ==> directions_to_clear(direction, hall, all, floor) == (Some(OrderDirection::Down), None::<OrderDirection>),
        !has_direction_at(hall, floor, OrderDirection::Up) && !has_direction_at(hall, floor, OrderDirection::Down)
            ==> directions_to_clear(direction, hall, all, floor) == (None::<OrderDirection>, None::<OrderDirection>),
        directions_to_clear(direction, hall, all, floor).0 matches Some(d) ==> has_direction_at(hall, floor, d),
        directions_to_clear(direction, hall, all, floor).1 matches Some(d) ==> has_direction_at(hall, floor, d)
            && directions_to_clear(direction, hall, all, floor).0 is Some && directions_to_clear(
            direction,
            hall,
            all,
            floor,
        ).0 != Some(d),
{
}

/// The assigner is told about exactly the live elevators with a clear door,
/// each with its recorded behaviour, floor and direction, and a cab flag for
/// each of the four floors that is set exactly when the elevator has a cab
/// order there; and for each floor and way, whether a confirmed hall order
/// asks for it.
pub proof fn law_assigner_input_reports_records(elevators: Map<u16, ElevatorView>, hall: Map<u16, OrderView>)
    ensures
        forall|k: u16|
            #[trigger] assigner_input_spec(elevators, hall).states.contains_key(k) <==> (elevators.contains_key(k)
                && elevators[k].dead_or_alive == DeadOrAlive::Alive && elevators[k].obstruction == Obstruction::Clear),
        forall|k: u16|
            #[trigger] assigner_input_spec(elevators, hall).states.contains_key(k) ==> {
                let st = assigner_input_spec(elevators, hall).states[k];
                &&& st.behaviour == elevators[k].behaviour
                &&& st.floor == elevators[k].floor
                &&& st.direction == elevators[k].direction
                &&& st.cab_requests.len() == 4
                &&& forall|f: int|
                    0 <= f < 4 ==> (#[trigger] st.cab_requests[f] <==> exists|j: int|
                        0 <= j < elevators[k].cab_orders.len() && elevators[k].cab_orders[j].floor == f)
            },
        assigner_input_spec(elevators, hall).hall_requests.len() == 4,
        forall|f: int, w: int|
            0 <= f < 4 && 0 <= w < 2 ==> (#[trigger] assigner_input_spec(elevators, hall).hall_requests[f][w]
                <==> exists|o: u16|
                hall.contains_key(o) && hall[o].order_status == OrderStatus::Confirmed && hall[o].floor == f
                    && hall[o].direction == (if w == 0 {
                    OrderDirection::Up
                } else {
                    OrderDirection::Down
                })),
{
    let i = assigner_input_spec(elevators, hall);
    assert forall|f: int, w: int| 0 <= f < 4 && 0 <= w < 2 implies (#[trigger] i.hall_requests[f][w] <==> exists|o: u16|
        hall.contains_key(o) && hall[o].order_status == OrderStatus::Confirmed && hall[o].floor == f
            && hall[o].direction == (if w == 0 {
            OrderDirection::Up
        } else {
            OrderDirection::Down
        })) by {
        let d = if w == 0 {
            OrderDirection::Up
        } else {
            OrderDirection::Down
        };
        let c = confirmed_orders(hall);
        if i.hall_requests[f][w] {
            assert(has_request(c, f, d));
            let o = choose|o: u16| #![trigger c[o]] c.contains_key(o) && c[o].floor == f && c[o].direction == d;
            assert(hall.contains_key(o) && hall[o].order_status == OrderStatus::Confirmed);
        }
        if exists|o: u16|
            hall.contains_key(o) && hall[o].order_status == OrderStatus::Confirmed && hall[o].floor == f
                && hall[o].direction == d {
            let o = choose|o: u16|
                hall.contains_key(o) && hall[o].order_status == OrderStatus::Confirmed && hall[o].floor == f
                    && hall[o].direction == d;
            assert(c.contains_key(o) && c[o] == hall[o]);
            assert(has_request(c, f, d));
        }
    }
}

/// The elevators the status managers wait for are the live ones: marking a
/// live elevator dead, while another is alive, lowers the count by one; the
/// record of a dead elevator never counts; and the count is at least one.
pub proof fn law_participants_count_live_elevators(elevators: Map<u16, ElevatorView>, k: u16)
    requires
        elevators.dom().finite(),
        elevators.contains_key(k),
    ensures
        participants(elevators) >= 1,
        elevators[k].dead_or_alive == DeadOrAlive::Alive && alive_count(elevators) >= 2 ==> participants(
            elevators.insert(k, ElevatorView { dead_or_alive: DeadOrAlive::Dead, ..elevators[k] }),
        ) == participants(elevators) - 1,
        elevators[k].dead_or_alive == DeadOrAlive::Dead ==> participants(elevators.remove(k)) == participants(
            elevators,
        ),
        elevators[k].dead_or_alive == DeadOrAlive::Alive && alive_count(elevators) >= 2 ==> participants(
            elevators.remove(k),
        ) == participants(elevators) - 1,
{
    let live = elevators.dom().filter(alive_fn(elevators));
    assert(live.finite()) by {
        vstd::set_lib::lemma_len_subset(live, elevators.dom());
    }
    let dead = elevators.insert(k, ElevatorView { dead_or_alive: DeadOrAlive::Dead, ..elevators[k] });
    let removed = elevators.remove(k);
    if elevators[k].dead_or_alive == DeadOrAlive::Alive {
        assert(dead.dom() =~= elevators.dom());
        assert(dead.dom().filter(alive_fn(dead)) =~= live.remove(k));
        assert(removed.dom().filter(alive_fn(removed)) =~= live.remove(k));
        assert(live.contains(k));
    } else {
        assert(removed.dom().filter(alive_fn(removed)) =~= live);
    }
}

/// Setting a cab order's status through the world view records this
/// elevator's acknowledgement of the new status: the first order with the
/// identifier gets the status and a barrier that holds `my_id` and keeps the
/// acknowledgements it had; every other order stays as it was; without such
/// an order nothing changes.
pub proof fn law_cab_status_set_with_ack(
    orders: Seq<OrderView>,
    order_id: u16,
    status: OrderStatus,
    my_id: u16,
    i: int,
)
    requires
        0 <= i < orders.len(),
        orders[i].order_id == order_id,
        forall|j: int| 0 <= j < i ==> orders[j].order_id != order_id,
    ensures
        cab_orders_with_status(orders, order_id, status, my_id).len() == orders.len(),
        cab_orders_with_status(orders, order_id, status, my_id)[i].order_status == status,
        cab_orders_with_status(orders, order_id, status, my_id)[i].ack_barrier.contains(my_id),
        orders[i].ack_barrier.is_prefix_of(cab_orders_with_status(orders, order_id, status, my_id)[i].ack_barrier),
        cab_orders_with_status(orders, order_id, status, my_id)[i].order_id == order_id,
        cab_orders_with_status(orders, order_id, status, my_id)[i].floor == orders[i].floor,
        forall|j: int|
            0 <= j < orders.len() && j != i ==> #[trigger] cab_orders_with_status(orders, order_id, status, my_id)[j]
                == orders[j],
{
    lemma_first_index(orders, order_id);
    let b = orders[i].ack_barrier;
    assert(b =~= b.push(my_id).subrange(0, b.len() as int));
    assert(b =~= b.subrange(0, b.len() as int));
    assert(b.push(my_id)[b.len() as int] == my_id);
}

/// The command that sets a cab order's status, applied to the world view,
/// gives the first order of elevator `k` with that identifier the status and
/// this elevator's acknowledgement, keeping the acknowledgements it had.
pub proof fn law_cab_status_command_records_ack(
    s: WorldViewState,
    k: u16,
    order_id: u16,
    status: OrderStatus,
    i: int,
)
    requires
        s.elevators.contains_key(k),
        0 <= i < s.elevators[k].cab_orders.len(),
        s.elevators[k].cab_orders[i].order_id == order_id,
        forall|j: int| 0 <= j < i ==> s.elevators[k].cab_orders[j].order_id != order_id,
    ensures
        ({
            let q = elevator_command_result(
                s,
                ElevatorStatusCommand::SetCabOrderStatus { elevator_id: k, order_id, status },
            ).elevators[k].cab_orders;
            &&& q.len() == s.elevators[k].cab_orders.len()
            &&& q[i].order_status == status
            &&& q[i].ack_barrier.contains(s.my_id)
            &&& s.elevators[k].cab_orders[i].ack_barrier.is_prefix_of(q[i].ack_barrier)
        }),
{
    law_cab_status_set_with_ack(s.elevators[k].cab_orders, order_id, status, s.my_id, i);
}

/// Setting the status of a cab order that is not there changes nothing.
pub proof fn law_cab_status_of_missing_order(orders: Seq<OrderView>, order_id: u16, status: OrderStatus, my_id: u16)
    requires
        forall|j: int| 0 <= j < orders.len() ==> orders[j].order_id != order_id,
    ensures
        cab_orders_with_status(orders, order_id, status, my_id) == orders,
{
    lemma_first_index(orders, order_id);
}

/// Hall and cab orders placed or moved on through the world view carry this
/// elevator's acknowledgement: a hall order added is filed under its
/// identifier with the rest of it as given and `my_id` in its barrier; a
/// hall order whose status is set gets the status and `my_id` in its
/// barrier, keeping the acknowledgements it had; a cab order added comes
/// last in the elevator's queue with `my_id` in its barrier.
pub proof fn law_edits_record_own_acknowledgement(s: WorldViewState, order: Order, order_id: u16, status: OrderStatus, k: u16)
    ensures
        ({
            let r = hall_command_result(s, HallOrderQueueCommand::AddToHallOrderQueue { order }).hall.orders;
            &&& r.contains_key(order@.order_id)
            &&& same_order_but_barrier(r[order@.order_id], order@)
            &&& r[order@.order_id].ack_barrier.contains(s.my_id)
            &&& order@.ack_barrier.is_prefix_of(r[order@.order_id].ack_barrier)
        }),
        s.hall.orders.contains_key(order_id) ==> ({
            let r = hall_command_result(s, HallOrderQueueCommand::SetHallOrderStatus { order_id, status }).hall.orders;
            &&& r[order_id].order_status == status
            &&& r[order_id].ack_barrier.contains(s.my_id)
            &&& s.hall.orders[order_id].ack_barrier.is_prefix_of(r[order_id].ack_barrier)
        }),
        s.elevators.contains_key(k) ==> ({
            let q = elevator_command_result(s, ElevatorStatusCommand::AddCabOrder { elevator_id: k, order }).elevators[k].cab_orders;
            &&& q.len() == s.elevators[k].cab_orders.len() + 1
            &&& same_order_but_barrier(q.last(), order@)
            &&& q.last().ack_barrier.contains(s.my_id)
        }),
{
    let b = order@.ack_barrier;
    assert(b =~= b.push(s.my_id).subrange(0, b.len() as int));
    assert(b =~= b.subrange(0, b.len() as int));
    assert(b.push(s.my_id)[b.len() as int] == s.my_id);
    if s.hall.orders.contains_key(order_id) {
        let c = s.hall.orders[order_id].ack_barrier;
        assert(c =~= c.push(s.my_id).subrange(0, c.len() as int));
        assert(c =~= c.subrange(0, c.len() as int));
        assert(c.push(s.my_id)[c.len() as int] == s.my_id);
    }
}

/// A merge from a sender whose picture is newer takes in every hall order
/// of the sender that is not pending clean-up here: afterwards it is held,
/// at the sender's status or a later one. One that was not held before
/// comes in as the sender had it, with this elevator's acknowledgement
/// added to the sender's ones.
pub proof fn law_sync_takes_newer_hall_orders(s: WorldViewState, incoming: WorldViewState, k: u16)
    requires
        sender_newer(s, incoming),
        incoming.hall.orders.contains_key(k),
        !s.hall.pending_cleanup.contains(k),
    ensures
        sync_result(s, incoming).hall.orders.contains_key(k),
        status_rank(sync_result(s, incoming).hall.orders[k].order_status) >= status_rank(
            incoming.hall.orders[k].order_status,
        ),
        !s.hall.orders.contains_key(k) ==> same_order_but_barrier(
            sync_result(s, incoming).hall.orders[k],
            incoming.hall.orders[k],
        ) && sync_result(s, incoming).hall.orders[k].ack_barrier.contains(s.my_id)
            && incoming.hall.orders[k].ack_barrier.to_set().subset_of(
            sync_result(s, incoming).hall.orders[k].ack_barrier.to_set(),
        ),
{
    let i = incoming.hall.orders[k];
    let taken = i.with_barrier(i.ack_barrier.push(s.my_id));
    lemma_merge_barrier_union(taken.ack_barrier, i.ack_barrier);
    assert(taken.ack_barrier[i.ack_barrier.len() as int] == s.my_id);
    assert(taken.ack_barrier.to_set().contains(s.my_id));
    assert forall|x: u16| i.ack_barrier.to_set().contains(x) implies taken.ack_barrier.to_set().contains(x) by {
        let j = choose|j: int| 0 <= j < i.ack_barrier.len() && i.ack_barrier[j] == x;
        assert(taken.ack_barrier[j] == x);
    }
}

/// A liveness check marks dead exactly the peers with a record that have
/// been silent for longer than the timeout; it changes nothing else, and
/// never touches this elevator's own record or anything but liveness.
pub proof fn law_liveness_tick_marks_silent_peers(m: MemoryStateView, now: u64, k: u16)
    requires
        m.world.elevators.contains_key(k),
    ensures
        event_result(m, MemoryEvent::LivenessTick { now_ms: now }).world.elevators.contains_key(k),
        event_result(m, MemoryEvent::LivenessTick { now_ms: now }).world.elevators[k].dead_or_alive == (if k
            != m.world.my_id && m.last_seen.contains_key(k) && now >= m.last_seen[k] && now - m.last_seen[k]
            > PEER_TIMEOUT_MS {
            DeadOrAlive::Dead
        } else {
            m.world.elevators[k].dead_or_alive
        }),
        event_result(m, MemoryEvent::LivenessTick { now_ms: now }).world.elevators[k] == (ElevatorView {
            dead_or_alive: event_result(m, MemoryEvent::LivenessTick { now_ms: now }).world.elevators[k].dead_or_alive,
            ..m.world.elevators[k]
        }),
        event_result(m, MemoryEvent::LivenessTick { now_ms: now }).world.hall == m.world.hall,
        event_result(m, MemoryEvent::LivenessTick { now_ms: now }).last_seen == m.last_seen,
{
}

/// A received picture is merged and marks its sender, when recorded, as
/// alive, with the time of hearing from it recorded.
pub proof fn law_received_picture_marks_sender_alive(m: MemoryStateView, incoming: WorldViewState, now: u64, wv: WorldView)
    requires
        wv@ == incoming,
        sync_result(m.world, incoming).elevators.contains_key(incoming.my_id),
    ensures
        event_result(m, MemoryEvent::WorldViewReceived { world_view: wv, now_ms: now }).world.elevators[incoming.my_id].dead_or_alive
            == DeadOrAlive::Alive,
        event_result(m, MemoryEvent::WorldViewReceived { world_view: wv, now_ms: now }).last_seen[incoming.my_id] == now,
        event_result(m, MemoryEvent::WorldViewReceived { world_view: wv, now_ms: now }).world.hall == sync_result(
            m.world,
            incoming,
        ).hall,
{
}

/// A clean-up drops every hall order pending clean-up and keeps every
/// other one as it is; nothing is pending afterwards.
pub proof fn law_cleanup_drops_pending(m: MemoryStateView, k: u16)
    ensures
        event_result(m, MemoryEvent::CleanupTick).world.hall.pending_cleanup == Set::<u16>::empty(),
        event_result(m, MemoryEvent::CleanupTick).world.hall.orders.contains_key(k) == (m.world.hall.orders.contains_key(k)
            && !m.world.hall.pending_cleanup.contains(k)),
        event_result(m, MemoryEvent::CleanupTick).world.hall.orders.contains_key(k) ==> event_result(
            m,
            MemoryEvent::CleanupTick,
        ).world.hall.orders[k] == m.world.hall.orders[k],
        event_result(m, MemoryEvent::CleanupTick).world.elevators == m.world.elevators,
{
}

} // verus!
