use elevator_control::memory::orders::{
    contains_id, order_status_rank, unique_ack_count, Order, OrderDirection, OrderStatus, OrderType,
};

fn order(id: u16, floor: u8, t: OrderType, d: OrderDirection, s: OrderStatus, barrier: Vec<u16>) -> Order {
    Order::from_parts(id, floor, t, d, s, barrier)
}

#[test]
fn status_ranks_follow_the_life_cycle() {
    assert_eq!(order_status_rank(&OrderStatus::Unconfirmed), 0);
    assert_eq!(order_status_rank(&OrderStatus::Confirmed), 1);
    assert_eq!(order_status_rank(&OrderStatus::Completed), 2);
    assert_eq!(order_status_rank(&OrderStatus::ReadyForDeletion), 3);
}

#[test]
fn call_buttons_give_order_kinds() {
    assert_eq!(OrderType::is_cab(2), OrderType::Cab);
    assert_eq!(OrderType::is_cab(0), OrderType::Hall);
    assert_eq!(OrderType::is_cab(1), OrderType::Hall);
    assert_eq!(OrderDirection::dir_from_call(0), OrderDirection::Up);
    assert_eq!(OrderDirection::dir_from_call(1), OrderDirection::Down);
    assert_eq!(OrderDirection::dir_from_call(2), OrderDirection::Down);
}

#[test]
fn new_order_is_unconfirmed_with_empty_barrier() {
    let o = Order::new(3, OrderType::Hall, OrderDirection::Down);
    assert_eq!(*o.get_floor(), 3);
    assert_eq!(*o.get_order_type(), OrderType::Hall);
    assert_eq!(*o.get_direction(), OrderDirection::Down);
    assert_eq!(*o.get_order_status(), OrderStatus::Unconfirmed);
    assert!(o.get_ack_barrier().is_empty());
}

#[test]
fn new_with_id_keeps_the_identifier() {
    let o = Order::new_with_id(77, 1, OrderType::Cab, OrderDirection::Up);
    assert_eq!(*o.get_order_id(), 77);
    assert_eq!(*o.get_floor(), 1);
    assert_eq!(*o.get_order_type(), OrderType::Cab);
    assert_eq!(*o.get_order_status(), OrderStatus::Unconfirmed);
}

#[test]
fn setters_change_one_part() {
    let mut o = order(5, 2, OrderType::Hall, OrderDirection::Up, OrderStatus::Unconfirmed, vec![1]);
    o.set_order_status(OrderStatus::Confirmed);
    assert_eq!(*o.get_order_status(), OrderStatus::Confirmed);
    o.set_ack_barrier(vec![4, 5]);
    assert_eq!(*o.get_ack_barrier(), vec![4, 5]);
    o.get_mut_ack_barrier().push(6);
    assert_eq!(*o.get_ack_barrier(), vec![4, 5, 6]);
    assert_eq!(*o.get_order_id(), 5);
    assert_eq!(*o.get_floor(), 2);
}

#[test]
fn insert_into_ack_barrier_allows_repeats_but_acknowledge_does_not() {
    let mut o = order(1, 0, OrderType::Hall, OrderDirection::Up, OrderStatus::Unconfirmed, vec![]);
    o.insert_into_ack_barrier(3);
    o.insert_into_ack_barrier(3);
    assert_eq!(*o.get_ack_barrier(), vec![3, 3]);
    assert_eq!(o.unique_acks(), 1);
    let mut p = order(1, 0, OrderType::Hall, OrderDirection::Up, OrderStatus::Unconfirmed, vec![]);
    p.acknowledge(3);
    p.acknowledge(3);
    p.acknowledge(4);
    assert_eq!(*p.get_ack_barrier(), vec![3, 4]);
}

#[test]
fn merging_barriers_adds_each_new_elevator_once() {
    let mut o = order(1, 0, OrderType::Hall, OrderDirection::Up, OrderStatus::Unconfirmed, vec![1, 2]);
    o.merge_ack_barrier(&vec![2, 3, 3, 4]);
    assert_eq!(*o.get_ack_barrier(), vec![1, 2, 3, 4]);
    let mut empty = order(2, 0, OrderType::Hall, OrderDirection::Up, OrderStatus::Unconfirmed, vec![]);
    empty.merge_ack_barrier(&vec![]);
    assert!(empty.get_ack_barrier().is_empty());
}

#[test]
fn unique_ack_count_counts_distinct_elevators() {
    assert_eq!(unique_ack_count(&vec![]), 0);
    assert_eq!(unique_ack_count(&vec![7, 7, 7]), 1);
    assert_eq!(unique_ack_count(&vec![1, 2, 1, 3, 2]), 3);
}

#[test]
fn contains_id_finds_members_only() {
    assert!(contains_id(&vec![4, 9], 9));
    assert!(!contains_id(&vec![4, 9], 5));
    assert!(!contains_id(&vec![], 0));
}

#[test]
fn same_as_compares_every_part() {
    let a = order(1, 2, OrderType::Hall, OrderDirection::Up, OrderStatus::Confirmed, vec![1, 2]);
    let b = a.clone();
    assert!(a.same_as(&b));
    assert_eq!(a, b);
    let c = order(1, 2, OrderType::Hall, OrderDirection::Up, OrderStatus::Confirmed, vec![2, 1]);
    assert!(!a.same_as(&c));
    let d = order(1, 2, OrderType::Hall, OrderDirection::Down, OrderStatus::Confirmed, vec![1, 2]);
    assert!(!a.same_as(&d));
}
