use std::collections::{HashMap, VecDeque};

use elevator_control::hallorder_decision::{
    assigner_input, assigner_input_valid, assigner_output_to_assigned_orders, cab_order_format_converter,
    filtered_hall_orders, hall_order_format_converter, parse_elevator_id, ElevatorState, Input,
};
use elevator_control::memory::elevator::{Behaviour, DeadOrAlive, ElevatorDirection, Obstruction};
use elevator_control::memory::orders::{Order, OrderDirection, OrderStatus, OrderType};
use elevator_control::memory::world_view::{ElevatorStatusCommand, HallOrderQueueCommand, WorldView};

fn hall(id: u16, floor: u8, d: OrderDirection, s: OrderStatus) -> Order {
    Order::from_parts(id, floor, OrderType::Hall, d, s, vec![])
}

#[test]
fn elevator_state_keeps_its_parts() {
    let s = ElevatorState::new(Behaviour::Moving, 2, ElevatorDirection::Up, vec![true, false, false, true]);
    assert_eq!(s.get_behaviour(), Behaviour::Moving);
    assert_eq!(s.get_floor(), 2);
    assert_eq!(s.get_direction(), ElevatorDirection::Up);
    assert_eq!(*s.get_cab_requests(), vec![true, false, false, true]);
    let mut states = HashMap::new();
    states.insert(1u16, s);
    let i = Input::new([[true, false], [false, false], [false, true], [false, false]], states);
    assert_eq!(*i.get_hall_requests(), [[true, false], [false, false], [false, true], [false, false]]);
    assert_eq!(i.get_states().len(), 1);
}

#[test]
fn hall_table_marks_each_call() {
    let mut m = HashMap::new();
    m.insert(1u16, hall(1, 0, OrderDirection::Up, OrderStatus::Confirmed));
    m.insert(2u16, hall(2, 3, OrderDirection::Down, OrderStatus::Confirmed));
    m.insert(3u16, hall(3, 3, OrderDirection::Down, OrderStatus::Confirmed));
    assert_eq!(hall_order_format_converter(&m), [[true, false], [false, false], [false, false], [false, true]]);
    assert_eq!(hall_order_format_converter(&HashMap::new()), [[false; 2]; 4]);
}

#[test]
fn cab_flags_mark_each_floor() {
    let mut q = VecDeque::new();
    q.push_back(Order::new_with_id(1, 1, OrderType::Cab, OrderDirection::Up));
    q.push_back(Order::new_with_id(2, 3, OrderType::Cab, OrderDirection::Up));
    q.push_back(Order::new_with_id(3, 3, OrderType::Cab, OrderDirection::Up));
    assert_eq!(cab_order_format_converter(&q), vec![false, true, false, true]);
    assert_eq!(cab_order_format_converter(&VecDeque::new()), vec![false; 4]);
}

#[test]
fn only_confirmed_hall_orders_are_dealt_out() {
    let mut w = WorldView::new(1, 10);
    w.edit_hall_order_queue(HallOrderQueueCommand::AddToHallOrderQueue {
        order: hall(1, 0, OrderDirection::Up, OrderStatus::Confirmed),
    });
    w.edit_hall_order_queue(HallOrderQueueCommand::AddToHallOrderQueue {
        order: hall(2, 1, OrderDirection::Up, OrderStatus::Unconfirmed),
    });
    w.edit_hall_order_queue(HallOrderQueueCommand::AddToHallOrderQueue {
        order: hall(3, 2, OrderDirection::Down, OrderStatus::Completed),
    });
    let f = filtered_hall_orders(&w);
    assert_eq!(f.len(), 1);
    assert!(f.contains_key(&1));
}

#[test]
fn assigner_input_skips_dead_and_obstructed_elevators() {
    let mut w = WorldView::new(1, 10);
    w.edit_hall_order_queue(HallOrderQueueCommand::AddToHallOrderQueue {
        order: hall(1, 2, OrderDirection::Down, OrderStatus::Confirmed),
    });
    w.edit_elevator_status(ElevatorStatusCommand::AddCabOrder {
        elevator_id: 1,
        order: Order::new_with_id(5, 3, OrderType::Cab, OrderDirection::Up),
    });
    assert!(assigner_input_valid(&w));
    let input = assigner_input(&w);
    assert_eq!(*input.get_hall_requests(), [[false, false], [false, false], [false, true], [false, false]]);
    let s = input.get_states().get(&1).unwrap();
    assert_eq!(s.get_floor(), 1);
    assert_eq!(*s.get_cab_requests(), vec![false, false, false, true]);

    w.edit_elevator_status(ElevatorStatusCommand::SetObstruction { elevator_id: 1, obstruction: Obstruction::Obstructed });
    assert!(assigner_input(&w).get_states().is_empty());
    w.edit_elevator_status(ElevatorStatusCommand::SetObstruction { elevator_id: 1, obstruction: Obstruction::Clear });
    w.edit_elevator_status(ElevatorStatusCommand::SetDeadOrAlive { elevator_id: 1, dead_or_alive: DeadOrAlive::Dead });
    assert!(assigner_input(&w).get_states().is_empty());
}

#[test]
fn an_order_beyond_the_top_floor_makes_the_input_invalid() {
    let mut w = WorldView::new(1, 10);
    w.edit_hall_order_queue(HallOrderQueueCommand::AddToHallOrderQueue {
        order: hall(1, 4, OrderDirection::Down, OrderStatus::Confirmed),
    });
    assert!(!assigner_input_valid(&w));
}

#[test]
fn elevator_ids_parse_as_std_parses_them() {
    for s in ["0", "12", "+7", "65535", "65536", "", "+", "-1", "1a", " 1", "007", "99999999999"] {
        assert_eq!(parse_elevator_id(s), s.parse::<u16>().ok(), "{}", s);
    }
}

#[test]
fn an_identifier_written_in_decimal_reads_back() {
    for n in [0u16, 7, 10, 255, 4096, 65535] {
        assert_eq!(parse_elevator_id(&n.to_string()), Some(n));
    }
}

#[test]
fn assigner_answer_becomes_order_lists() {
    let mut m = HashMap::new();
    m.insert(10u16, hall(10, 0, OrderDirection::Up, OrderStatus::Confirmed));
    m.insert(12u16, hall(12, 0, OrderDirection::Up, OrderStatus::Confirmed));
    m.insert(11u16, hall(11, 2, OrderDirection::Down, OrderStatus::Confirmed));
    let answer = vec![
        ("1".to_string(), vec![[true, false, false], [false, false, false], [false, true, false], [false, false, false]]),
        ("2".to_string(), vec![[false, false, false], [true, true, false], [false, false, false], [false, false, false]]),
    ];
    let assigned = assigner_output_to_assigned_orders(answer, &m);
    assert_eq!(assigned.len(), 2);
    let one: Vec<u16> = assigned[&1].iter().map(|o| *o.get_order_id()).collect();
    assert_eq!(one, vec![10, 11]);
    assert!(assigned[&2].is_empty());
}

#[test]
fn an_unreadable_elevator_name_gives_no_assignment() {
    let mut m = HashMap::new();
    m.insert(10u16, hall(10, 0, OrderDirection::Up, OrderStatus::Confirmed));
    let answer = vec![
        ("1".to_string(), vec![[true, false, false]; 4]),
        ("one".to_string(), vec![[true, false, false]; 4]),
    ];
    assert!(assigner_output_to_assigned_orders(answer, &m).is_empty());
}

#[test]
fn a_later_entry_for_the_same_elevator_wins() {
    let mut m = HashMap::new();
    m.insert(10u16, hall(10, 1, OrderDirection::Up, OrderStatus::Confirmed));
    let answer = vec![
        ("3".to_string(), vec![[false, false, false], [true, false, false], [false; 3], [false; 3]]),
        ("+3".to_string(), vec![[false; 3]; 4]),
    ];
    let assigned = assigner_output_to_assigned_orders(answer, &m);
    assert_eq!(assigned.len(), 1);
    assert!(assigned[&3].is_empty());
}
