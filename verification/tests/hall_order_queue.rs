use std::collections::HashMap;

use elevator_control::memory::hall_order_queue::HallOrderQueue;
use elevator_control::memory::orders::{Order, OrderDirection, OrderStatus, OrderType};

fn hall(id: u16, floor: u8, s: OrderStatus, barrier: Vec<u16>) -> Order {
    Order::from_parts(id, floor, OrderType::Hall, OrderDirection::Up, s, barrier)
}

#[test]
fn new_queue_is_empty() {
    let q = HallOrderQueue::new();
    assert!(q.get_order_queue().is_empty());
    assert!(q.get_pending_cleanup().is_empty());
    assert!(q.is_keyed_by_id());
}

#[test]
fn orders_are_filed_under_their_identifier() {
    let mut q = HallOrderQueue::new();
    q.add_to_queue(hall(7, 1, OrderStatus::Unconfirmed, vec![]));
    assert!(q.get_order_queue().contains_key(&7));
    assert_eq!(*q.get_hall_order(7).get_floor(), 1);
    q.add_to_queue(hall(7, 2, OrderStatus::Unconfirmed, vec![]));
    assert_eq!(q.get_order_queue().len(), 1);
    assert_eq!(*q.get_hall_order(7).get_floor(), 2);
    q.remove_from_queue(7);
    assert!(q.get_order_queue().is_empty());
    q.remove_from_queue(7);
    assert!(q.get_order_queue().is_empty());
}

#[test]
fn a_queue_filed_under_other_keys_is_not_keyed_by_id() {
    let mut m = HashMap::new();
    m.insert(1u16, hall(2, 0, OrderStatus::Unconfirmed, vec![]));
    let q = HallOrderQueue::from_parts(m, vec![]);
    assert!(!q.is_keyed_by_id());
}

#[test]
fn status_and_barrier_setters_touch_only_that_order() {
    let mut q = HallOrderQueue::new();
    q.add_to_queue(hall(1, 0, OrderStatus::Unconfirmed, vec![]));
    q.add_to_queue(hall(2, 1, OrderStatus::Unconfirmed, vec![]));
    q.set_hall_order_status(1, OrderStatus::Completed);
    q.set_hall_order_ack_barrier(2, vec![5, 6]);
    q.insert_into_hall_order_ack_barrier(2, 7);
    q.set_hall_order_status(9, OrderStatus::Completed);
    assert_eq!(*q.get_hall_order(1).get_order_status(), OrderStatus::Completed);
    assert_eq!(*q.get_hall_order(2).get_order_status(), OrderStatus::Unconfirmed);
    assert_eq!(*q.get_hall_order(2).get_ack_barrier(), vec![5, 6, 7]);
    assert_eq!(q.get_order_queue().len(), 2);
    if let Some(o) = q.get_mut_hall_order(1) {
        o.set_order_status(OrderStatus::Confirmed);
    }
    assert_eq!(*q.get_hall_order(1).get_order_status(), OrderStatus::Confirmed);
    assert!(q.get_mut_hall_order(3).is_none());
}

#[test]
fn status_manager_moves_fully_acknowledged_orders_on() {
    let mut q = HallOrderQueue::new();
    q.add_to_queue(hall(1, 0, OrderStatus::Unconfirmed, vec![1, 2, 1]));
    q.add_to_queue(hall(2, 1, OrderStatus::Unconfirmed, vec![1]));
    q.add_to_queue(hall(3, 2, OrderStatus::Completed, vec![2, 1]));
    q.add_to_queue(hall(4, 3, OrderStatus::ReadyForDeletion, vec![1, 2]));
    q.add_to_queue(hall(5, 3, OrderStatus::Confirmed, vec![1, 2]));
    q.hall_order_status_manager(2);
    assert_eq!(*q.get_hall_order(1).get_order_status(), OrderStatus::Confirmed);
    assert!(q.get_hall_order(1).get_ack_barrier().is_empty());
    assert_eq!(*q.get_hall_order(2).get_order_status(), OrderStatus::Unconfirmed);
    assert_eq!(*q.get_hall_order(2).get_ack_barrier(), vec![1]);
    assert_eq!(*q.get_hall_order(3).get_order_status(), OrderStatus::ReadyForDeletion);
    assert!(!q.get_order_queue().contains_key(&4));
    assert_eq!(*q.get_hall_order(5).get_order_status(), OrderStatus::Confirmed);
    assert_eq!(*q.get_pending_cleanup(), vec![4]);
}

#[test]
fn clean_up_removes_pending_orders_and_empties_the_list() {
    let mut q = HallOrderQueue::new();
    q.add_to_queue(hall(4, 3, OrderStatus::ReadyForDeletion, vec![1]));
    q.hall_order_status_manager(1);
    assert!(q.get_order_queue().is_empty());
    q.add_to_queue(hall(4, 3, OrderStatus::Completed, vec![]));
    q.add_to_queue(hall(6, 1, OrderStatus::Confirmed, vec![]));
    q.clean_up_pending();
    assert!(!q.get_order_queue().contains_key(&4));
    assert!(q.get_order_queue().contains_key(&6));
    assert!(q.get_pending_cleanup().is_empty());
}

#[test]
fn pending_list_can_be_edited_directly() {
    let mut q = HallOrderQueue::new();
    q.get_mut_pending_cleanup().push(3);
    q.add_to_queue(hall(3, 0, OrderStatus::Confirmed, vec![]));
    q.get_mut_hall_order_queue().insert(8, hall(8, 0, OrderStatus::Confirmed, vec![]));
    q.clean_up_pending();
    assert_eq!(q.get_order_queue().len(), 1);
    assert!(q.get_order_queue().contains_key(&8));
}

#[test]
fn queue_clone_is_equal() {
    let mut q = HallOrderQueue::new();
    q.add_to_queue(hall(1, 0, OrderStatus::Unconfirmed, vec![2]));
    let c = q.clone();
    assert_eq!(c, q);
}
