use std::collections::{HashMap, VecDeque};

use elevator_control::memory::elevator::{Behaviour, DeadOrAlive, Elevator, ElevatorDirection, Obstruction};
use elevator_control::memory::hall_order_queue::HallOrderQueue;
use elevator_control::memory::orders::{Order, OrderDirection, OrderStatus, OrderType};
use elevator_control::memory::world_view::{
    counter_newer, ElevatorStatusCommand, HallOrderQueueCommand, WorldView,
};

fn hall(id: u16, floor: u8) -> Order {
    Order::new_with_id(id, floor, OrderType::Hall, OrderDirection::Up)
}

fn cab(id: u16, floor: u8) -> Order {
    Order::new_with_id(id, floor, OrderType::Cab, OrderDirection::Down)
}

fn sync(me: &mut WorldView, other: &WorldView) {
    assert!(me.can_synchronize(other));
    me.synchronize_world_view(other.clone());
}

#[test]
fn new_world_view_knows_only_itself() {
    let w = WorldView::new(4, 900);
    assert_eq!(w.get_id(), 4);
    assert_eq!(w.get_session_id(), 900);
    assert_eq!(w.get_elevator_statuses().len(), 1);
    assert_eq!(*w.get_elevator(4).get_floor(), 1);
    assert_eq!(w.get_elev_write_counter(4), 0);
    assert_eq!(w.get_write_counters().len(), 1);
    assert_eq!(w.get_recorded_session_ids().get(&4), Some(&900));
    assert!(w.get_hall_order_queue().get_order_queue().is_empty());
}

#[test]
fn from_parts_refuses_a_picture_without_own_record() {
    let w = WorldView::from_parts(1, 1, HashMap::new(), HallOrderQueue::new(), HashMap::new(), HashMap::new());
    assert!(w.is_none());
    let mut elevators = HashMap::new();
    elevators.insert(1u16, Elevator::new(1, 1));
    let w = WorldView::from_parts(1, 1, elevators, HallOrderQueue::new(), HashMap::new(), HashMap::new());
    assert!(w.is_some());
}

#[test]
fn elevator_commands_change_the_named_record() {
    let mut w = WorldView::new(1, 10);
    let cmds = vec![
        ElevatorStatusCommand::SetFloor { elevator_id: 1, floor: 3 },
        ElevatorStatusCommand::SetBehaviour { elevator_id: 1, behavior: Behaviour::Moving },
        ElevatorStatusCommand::SetObstruction { elevator_id: 1, obstruction: Obstruction::Obstructed },
        ElevatorStatusCommand::SetDirection { elevator_id: 1, dir: ElevatorDirection::Up },
        ElevatorStatusCommand::SetDeadOrAlive { elevator_id: 1, dead_or_alive: DeadOrAlive::Dead },
    ];
    for c in cmds {
        assert!(w.can_edit_elevator_status(&c));
        w.edit_elevator_status(c);
    }
    let e = w.get_elevator(1);
    assert_eq!(*e.get_floor(), 3);
    assert_eq!(*e.get_behaviour(), Behaviour::Moving);
    assert_eq!(*w.get_elev_obstruction(1), Obstruction::Obstructed);
    assert_eq!(*w.get_elev_behaviour(1), Behaviour::Moving);
    assert_eq!(*e.get_direction(), ElevatorDirection::Up);
    assert_eq!(*e.get_dead_or_alive(), DeadOrAlive::Dead);
}

#[test]
fn a_command_about_an_unknown_elevator_is_refused() {
    let w = WorldView::new(1, 10);
    assert!(!w.can_edit_elevator_status(&ElevatorStatusCommand::SetFloor { elevator_id: 2, floor: 0 }));
}

#[test]
fn added_cab_order_carries_own_acknowledgement() {
    let mut w = WorldView::new(1, 10);
    w.edit_elevator_status(ElevatorStatusCommand::AddCabOrder { elevator_id: 1, order: cab(30, 2) });
    w.edit_elevator_status(ElevatorStatusCommand::AddCabOrder { elevator_id: 1, order: cab(31, 3) });
    let q = w.get_elevator(1).get_cab_orders();
    assert_eq!(q.len(), 2);
    assert_eq!(*q[0].get_ack_barrier(), vec![1]);
    w.edit_elevator_status(ElevatorStatusCommand::SetCabOrderStatus {
        elevator_id: 1,
        order_id: 31,
        status: OrderStatus::Completed,
    });
    assert_eq!(*w.get_elevator(1).get_cab_orders()[1].get_order_status(), OrderStatus::Completed);
    w.edit_elevator_status(ElevatorStatusCommand::RemoveCabOrder { elevator_id: 1 });
    assert_eq!(*w.get_elevator(1).get_cab_orders()[0].get_order_id(), 31);
    let mut q2 = VecDeque::new();
    q2.push_back(cab(40, 0));
    w.edit_elevator_status(ElevatorStatusCommand::SetCabOrders { elevator_id: 1, orders: q2 });
    assert_eq!(*w.get_elevator(1).get_cab_orders()[0].get_order_id(), 40);
}

#[test]
fn hall_commands_edit_the_queue() {
    let mut w = WorldView::new(1, 10);
    w.edit_hall_order_queue(HallOrderQueueCommand::AddToHallOrderQueue { order: hall(5, 2) });
    assert_eq!(*w.get_hall_order_queue().get_hall_order(5).get_ack_barrier(), vec![1]);
    w.edit_hall_order_queue(HallOrderQueueCommand::SetAckBarrier { order_id: 5, barrier: vec![3] });
    w.edit_hall_order_queue(HallOrderQueueCommand::InsertIntoAckBarrier { order_id: 5, elevator_id: 4 });
    assert_eq!(*w.get_hall_order_queue().get_hall_order(5).get_ack_barrier(), vec![3, 4]);
    w.edit_hall_order_queue(HallOrderQueueCommand::SetHallOrderStatus { order_id: 5, status: OrderStatus::Completed });
    let o = w.get_hall_order_queue().get_hall_order(5);
    assert_eq!(*o.get_order_status(), OrderStatus::Completed);
    assert_eq!(*o.get_ack_barrier(), vec![3, 4, 1]);
    w.edit_hall_order_queue(HallOrderQueueCommand::RemoveFromHallOrderQueue { order_id: 5 });
    assert!(w.get_hall_order_queue().get_order_queue().is_empty());
}

#[test]
fn write_counters_wrap_round() {
    let mut w = WorldView::new(1, 10);
    w.set_write_counter(1, 0xffff);
    assert_eq!(w.get_elev_write_counter(1), 0xffff);
    w.increment_write_counter(&1);
    assert_eq!(w.get_elev_write_counter(1), 0);
    w.increment_write_counter(&1);
    assert_eq!(w.get_elev_write_counter(1), 1);
}

#[test]
fn counter_comparison_counts_modulo_the_range() {
    assert!(counter_newer(1, 0, false));
    assert!(counter_newer(0, 0xffff, false));
    assert!(!counter_newer(5, 5, false));
    assert!(counter_newer(5, 5, true));
    assert!(counter_newer(0x8004, 5, false));
    assert!(!counter_newer(0x8005, 5, false));
    assert!(!counter_newer(4, 5, false));
}

#[test]
fn an_order_placed_at_one_elevator_is_confirmed_once_both_acknowledge() {
    let mut a = WorldView::new(1, 100);
    let mut b = WorldView::new(2, 200);
    b.edit_hall_order_queue(HallOrderQueueCommand::AddToHallOrderQueue { order: hall(50, 2) });

    sync(&mut b, &a);
    assert_eq!(b.get_elev_write_counter(2), 1);

    // The first picture from a new peer only records its counter.
    sync(&mut a, &b);
    assert!(a.get_hall_order_queue().get_order_queue().is_empty());
    assert_eq!(a.get_elev_write_counter(2), 1);
    assert_eq!(a.get_elev_write_counter(1), 1);

    sync(&mut b, &a);
    assert_eq!(b.get_elev_write_counter(2), 2);
    sync(&mut a, &b);
    let o = a.get_hall_order_queue().get_hall_order(50);
    assert_eq!(*o.get_order_status(), OrderStatus::Unconfirmed);
    assert_eq!(*o.get_ack_barrier(), vec![2, 1]);
    assert!(a.get_elevator_statuses().contains_key(&2));
    assert_eq!(a.get_recorded_session_ids().get(&2), Some(&200));

    assert!(a.alive_count_fits());
    assert_eq!(a.alive_elevators_count(), 2);
    a.maintain_order_statuses();
    let o = a.get_hall_order_queue().get_hall_order(50);
    assert_eq!(*o.get_order_status(), OrderStatus::Confirmed);
    assert!(o.get_ack_barrier().is_empty());
}

#[test]
fn a_stale_picture_leaves_hall_orders_alone() {
    let mut a = WorldView::new(1, 100);
    let mut b = WorldView::new(2, 200);
    sync(&mut b, &a);
    sync(&mut a, &b);
    b.edit_hall_order_queue(HallOrderQueueCommand::AddToHallOrderQueue { order: hall(60, 1) });
    sync(&mut b, &a);
    let old_b = b.clone();
    sync(&mut a, &b);
    assert!(a.get_hall_order_queue().get_order_queue().contains_key(&60));
    a.edit_hall_order_queue(HallOrderQueueCommand::RemoveFromHallOrderQueue { order_id: 60 });
    // The same picture again is not newer than what a has recorded of b.
    sync(&mut a, &old_b);
    assert!(!a.get_hall_order_queue().get_order_queue().contains_key(&60));
}

#[test]
fn a_finished_order_is_not_taken_back_from_a_peer() {
    let mut a = WorldView::new(1, 100);
    let mut b = WorldView::new(2, 200);
    let done = Order::from_parts(70, 0, OrderType::Hall, OrderDirection::Up, OrderStatus::ReadyForDeletion, vec![1, 2]);
    b.edit_hall_order_queue(HallOrderQueueCommand::AddToHallOrderQueue { order: done.clone() });
    a.edit_hall_order_queue(HallOrderQueueCommand::AddToHallOrderQueue { order: done });
    a.edit_hall_order_queue(HallOrderQueueCommand::SetAckBarrier { order_id: 70, barrier: vec![1] });
    a.maintain_order_statuses();
    assert!(!a.get_hall_order_queue().get_order_queue().contains_key(&70));
    assert_eq!(*a.get_hall_order_queue().get_pending_cleanup(), vec![70]);
    for _ in 0..3 {
        sync(&mut b, &a);
        sync(&mut a, &b);
    }
    assert!(!a.get_hall_order_queue().get_order_queue().contains_key(&70));
}

#[test]
fn cab_status_manager_confirms_own_cab_orders() {
    let mut w = WorldView::new(1, 10);
    w.edit_elevator_status(ElevatorStatusCommand::AddCabOrder { elevator_id: 1, order: cab(8, 2) });
    w.cab_order_status_manager(1);
    let q = w.get_elevator(1).get_cab_orders();
    assert_eq!(*q[0].get_order_status(), OrderStatus::Confirmed);
    assert!(q[0].get_ack_barrier().is_empty());
}

#[test]
fn setters_through_the_world_view() {
    let mut w = WorldView::new(1, 10);
    w.set_elev_current_floor(1, 2);
    w.set_elev_direction(1, ElevatorDirection::Down);
    w.set_elev_behaviour(1, Behaviour::DoorOpen);
    w.set_elev_obstruction(1, Obstruction::Obstructed);
    w.set_elev_dead_or_alive(1, DeadOrAlive::Dead);
    w.add_elev_cab_order(1, cab(3, 0));
    w.set_elev_cab_order_status(1, 3, OrderStatus::Completed);
    let e = w.get_elevator(1);
    assert_eq!(*e.get_floor(), 2);
    assert_eq!(*e.get_direction(), ElevatorDirection::Down);
    assert_eq!(*e.get_behaviour(), Behaviour::DoorOpen);
    assert_eq!(*e.get_obstruction(), Obstruction::Obstructed);
    assert_eq!(*e.get_dead_or_alive(), DeadOrAlive::Dead);
    assert_eq!(*e.get_cab_orders()[0].get_order_status(), OrderStatus::Completed);
    w.remove_elev_cab_order(1);
    assert!(w.get_elevator(1).get_cab_orders().is_empty());
    w.get_mut_elevator(1).set_floor(0);
    assert_eq!(*w.get_elevator(1).get_floor(), 0);
    let mut q = VecDeque::new();
    q.push_back(cab(9, 1));
    w.set_elev_cab_orders(1, q);
    assert_eq!(w.get_elevator(1).get_cab_orders().len(), 1);
    w.add_to_hall_order_queue(hall(4, 1));
    w.set_hall_order_status(4, OrderStatus::Confirmed);
    assert_eq!(*w.get_hall_order_queue().get_hall_order(4).get_order_status(), OrderStatus::Confirmed);
    w.get_mut_hall_order_queue().remove_from_queue(4);
    assert!(w.get_hall_order_queue().get_order_queue().is_empty());
}

#[test]
fn world_view_clone_is_equal() {
    let mut w = WorldView::new(1, 10);
    w.add_to_hall_order_queue(hall(4, 1));
    assert_eq!(w.clone(), w);
}
