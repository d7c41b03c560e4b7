use std::collections::VecDeque;

use elevator_control::memory::elevator::{
    clone_orders, find_order, replace_order_at, Behaviour, DeadOrAlive, Elevator, ElevatorDirection, Obstruction,
};
use elevator_control::memory::orders::{Order, OrderDirection, OrderStatus, OrderType};

fn cab(id: u16, floor: u8) -> Order {
    Order::from_parts(id, floor, OrderType::Cab, OrderDirection::Up, OrderStatus::Unconfirmed, vec![])
}

#[test]
fn new_elevator_is_alive_idle_at_floor_one() {
    let e = Elevator::new(3, 44);
    assert_eq!(*e.get_dead_or_alive(), DeadOrAlive::Alive);
    assert_eq!(*e.get_elevator_id(), 3);
    assert_eq!(*e.get_session_id(), 44);
    assert_eq!(*e.get_behaviour(), Behaviour::Idle);
    assert_eq!(*e.get_obstruction(), Obstruction::Clear);
    assert_eq!(*e.get_floor(), 1);
    assert_eq!(*e.get_direction(), ElevatorDirection::Stop);
    assert!(e.get_cab_orders().is_empty());
}

#[test]
fn setters_change_one_field() {
    let mut e = Elevator::new(1, 1);
    e.set_dead_or_alive(DeadOrAlive::Dead);
    e.set_behavior(Behaviour::Moving);
    e.set_obstruction(Obstruction::Obstructed);
    e.set_floor(3);
    e.set_direction(ElevatorDirection::Down);
    assert_eq!(*e.get_dead_or_alive(), DeadOrAlive::Dead);
    assert_eq!(*e.get_behaviour(), Behaviour::Moving);
    assert_eq!(*e.get_obstruction(), Obstruction::Obstructed);
    assert_eq!(*e.get_floor(), 3);
    assert_eq!(*e.get_direction(), ElevatorDirection::Down);
    assert_eq!(*e.get_elevator_id(), 1);
}

#[test]
fn cab_orders_are_first_in_first_out() {
    let mut e = Elevator::new(1, 1);
    e.add_cab_order(cab(10, 2));
    e.add_cab_order(cab(11, 3));
    assert_eq!(e.get_cab_orders().len(), 2);
    e.remove_cab_order();
    assert_eq!(*e.get_cab_orders()[0].get_order_id(), 11);
    e.remove_cab_order();
    e.remove_cab_order();
    assert!(e.get_cab_orders().is_empty());
}

#[test]
fn set_cab_orders_replaces_the_queue() {
    let mut e = Elevator::new(1, 1);
    e.add_cab_order(cab(1, 0));
    let mut q = VecDeque::new();
    q.push_back(cab(5, 2));
    q.push_back(cab(6, 3));
    e.set_cab_orders(q);
    assert_eq!(*e.get_cab_orders()[0].get_order_id(), 5);
    e.get_mut_cab_orders().push_back(cab(7, 1));
    assert_eq!(e.get_cab_orders().len(), 3);
}

#[test]
fn find_order_gives_first_position() {
    let mut q = VecDeque::new();
    q.push_back(cab(4, 0));
    q.push_back(cab(8, 1));
    q.push_back(cab(8, 2));
    assert_eq!(find_order(&q, 8), Some(1));
    assert_eq!(find_order(&q, 4), Some(0));
    assert_eq!(find_order(&q, 9), None);
}

#[test]
fn replace_and_clone_orders() {
    let mut q = VecDeque::new();
    q.push_back(cab(4, 0));
    q.push_back(cab(8, 1));
    replace_order_at(&mut q, 1, cab(9, 3));
    assert_eq!(*q[1].get_order_id(), 9);
    let c = clone_orders(&q);
    assert_eq!(c, q);
}

#[test]
fn elevator_clone_is_equal() {
    let mut e = Elevator::new(2, 5);
    e.add_cab_order(cab(1, 1));
    let c = e.clone();
    assert_eq!(c, e);
}
