use std::collections::{HashMap, VecDeque};

use elevator_control::collections::same_u16_maps;
use elevator_control::hallorder_decision::{same_order_lists, should_send_orders};
use elevator_control::memory::elevator::{same_order_queues, Elevator};
use elevator_control::memory::hall_order_queue::{same_id_sets, same_order_maps, HallOrderQueue};
use elevator_control::memory::memory_events::{should_send_elevator, should_send_world_view};
use elevator_control::memory::orders::{Order, OrderDirection, OrderStatus, OrderType};
use elevator_control::memory::world_view::{
    same_elevator_maps, ElevatorStatusCommand, HallOrderQueueCommand, WorldView,
};

fn hall(id: u16) -> Order {
    Order::new_with_id(id, 1, OrderType::Hall, OrderDirection::Up)
}

#[test]
fn order_lists_compare_in_order() {
    assert!(same_order_lists(&vec![hall(1), hall(2)], &vec![hall(1), hall(2)]));
    assert!(!same_order_lists(&vec![hall(1), hall(2)], &vec![hall(2), hall(1)]));
    assert!(!same_order_lists(&vec![hall(1)], &vec![hall(1), hall(2)]));
    let q1: VecDeque<Order> = vec![hall(1)].into_iter().collect();
    let q2: VecDeque<Order> = vec![hall(3)].into_iter().collect();
    assert!(same_order_queues(&q1, &q1.clone()));
    assert!(!same_order_queues(&q1, &q2));
}

#[test]
fn orders_are_sent_only_when_they_change() {
    let orders = vec![hall(1)];
    assert!(should_send_orders(&None, &orders));
    assert!(!should_send_orders(&Some(vec![hall(1)]), &orders));
    let mut acked = hall(1);
    acked.acknowledge(4);
    assert!(should_send_orders(&Some(vec![acked]), &orders));
    assert!(should_send_orders(&Some(vec![]), &orders));
}

#[test]
fn maps_and_sets_compare_by_content() {
    let mut a = HashMap::new();
    a.insert(1u16, 5u16);
    a.insert(2u16, 6u16);
    let mut b = a.clone();
    assert!(same_u16_maps(&a, &b));
    b.insert(2, 7);
    assert!(!same_u16_maps(&a, &b));
    b.insert(2, 6);
    b.insert(3, 0);
    assert!(!same_u16_maps(&a, &b));
    assert!(same_id_sets(&vec![1, 2, 2], &vec![2, 1]));
    assert!(!same_id_sets(&vec![1, 2], &vec![1]));
    let mut m = HashMap::new();
    m.insert(1u16, hall(1));
    let mut n = HashMap::new();
    n.insert(1u16, hall(1));
    assert!(same_order_maps(&m, &n));
    n.insert(2u16, hall(2));
    assert!(!same_order_maps(&m, &n));
    let mut e = HashMap::new();
    e.insert(1u16, Elevator::new(1, 1));
    let mut f = e.clone();
    assert!(same_elevator_maps(&e, &f));
    f.get_mut(&1).unwrap().set_floor(3);
    assert!(!same_elevator_maps(&e, &f));
}

#[test]
fn records_and_pictures_are_sent_only_when_they_change() {
    let e = Elevator::new(1, 1);
    assert!(should_send_elevator(&None, &e));
    assert!(!should_send_elevator(&Some(e.clone()), &e));
    let mut moved = e.clone();
    moved.set_floor(2);
    assert!(should_send_elevator(&Some(moved), &e));

    let mut w = WorldView::new(1, 10);
    assert!(should_send_world_view(&None, &w));
    let last = w.clone();
    assert!(!should_send_world_view(&Some(last.clone()), &w));
    w.edit_hall_order_queue(HallOrderQueueCommand::AddToHallOrderQueue { order: hall(9) });
    assert!(should_send_world_view(&Some(last), &w));
    let mut q1 = HallOrderQueue::new();
    q1.get_mut_pending_cleanup().push(3);
    q1.get_mut_pending_cleanup().push(3);
    let mut q2 = HallOrderQueue::new();
    q2.get_mut_pending_cleanup().push(3);
    assert!(q1.same_as(&q2));
}

#[test]
fn identities_survive_edits_and_merges() {
    let mut w = WorldView::new(4, 40);
    let mut peer = WorldView::new(5, 50);
    let mut o = hall(3);
    o.set_order_status(OrderStatus::Completed);
    o.insert_into_ack_barrier(4);
    o.set_ack_barrier(vec![]);
    o.get_mut_ack_barrier().push(7);
    assert_eq!(*o.get_order_id(), 3);
    assert_eq!(*o.get_order_status(), OrderStatus::Completed);
    assert_eq!(*o.clone().get_order_id(), 3);
    w.edit_elevator_status(ElevatorStatusCommand::SetFloor { elevator_id: 4, floor: 2 });
    w.edit_hall_order_queue(HallOrderQueueCommand::AddToHallOrderQueue { order: o });
    for _ in 0..3 {
        peer.synchronize_world_view(w.clone());
        w.synchronize_world_view(peer.clone());
    }
    assert_eq!(w.get_id(), 4);
    assert_eq!(w.get_session_id(), 40);
    assert!(w.get_elevator_statuses().contains_key(&4));
    assert!(w.get_elevator_statuses().contains_key(&5));
    assert_eq!(*w.get_elevator(5).get_elevator_id(), 5);
    let mut e = Elevator::new(8, 80);
    e.set_floor(3);
    e.add_cab_order(hall(1));
    e.remove_cab_order();
    assert_eq!(*e.get_elevator_id(), 8);
    assert_eq!(*e.get_session_id(), 80);
}
