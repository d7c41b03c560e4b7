use std::collections::HashMap;

use elevator_control::hallorder_decision::assigned_orders_from_answer;
use elevator_control::hardware::{can_tick, ElevatorData, FloorDirection, MotorState};
use elevator_control::memory::elevator::Elevator;
use elevator_control::memory::hall_order_queue::HallOrderQueue;
use elevator_control::memory::memory_events::{MemoryEvent, MemoryState};
use elevator_control::memory::orders::{Order, OrderDirection, OrderStatus, OrderType};
use elevator_control::memory::world_view::{ElevatorStatusCommand, MemoryCommand, WorldView};

fn hall(id: u16, floor: u8, d: OrderDirection) -> Order {
    Order::from_parts(id, floor, OrderType::Hall, d, OrderStatus::Confirmed, vec![])
}

#[test]
fn the_printed_answer_is_read_into_order_lists() {
    let mut m = HashMap::new();
    m.insert(10u16, hall(10, 0, OrderDirection::Up));
    m.insert(11u16, hall(11, 2, OrderDirection::Down));
    let out = br#"{"2": [[false,false,false],[false,false,false],[false,true,false],[false,false,false]],
                   "1": [[true,false,false],[false,false,false],[false,false,false],[false,false,false]]}"#;
    let a = assigned_orders_from_answer(out, &m).unwrap();
    assert_eq!(a.len(), 2);
    assert_eq!(*a[&1][0].get_order_id(), 10);
    assert_eq!(a[&1].len(), 1);
    assert_eq!(*a[&2][0].get_order_id(), 11);
}

#[test]
fn an_answer_that_is_not_json_is_refused() {
    let m: HashMap<u16, Order> = HashMap::new();
    assert!(assigned_orders_from_answer(b"not json", &m).is_none());
    assert!(assigned_orders_from_answer(br#"{"1": [[true, false]]}"#, &m).is_none());
    assert!(assigned_orders_from_answer(b"[]", &m).is_none());
}

#[test]
fn an_unreadable_name_in_a_printed_answer_gives_no_assignment() {
    let m: HashMap<u16, Order> = HashMap::new();
    let a = assigned_orders_from_answer(br#"{"x": [[true,false,false]]}"#, &m).unwrap();
    assert!(a.is_empty());
}

#[test]
fn a_turn_hands_on_only_what_changed() {
    let mut m = MemoryState::new(1, 10, 0);
    let mut last_e: Option<Elevator> = None;
    let mut last_w: Option<WorldView> = None;
    m.handle_event(MemoryEvent::CleanupTick);
    let (e, w) = m.finish_turn(&mut last_e, &mut last_w);
    assert!(e.is_some() && w.is_some());
    m.handle_event(MemoryEvent::CleanupTick);
    let (e, w) = m.finish_turn(&mut last_e, &mut last_w);
    assert!(e.is_none() && w.is_none());
    m.handle_event(MemoryEvent::Command(MemoryCommand::ElevatorStatus(ElevatorStatusCommand::SetFloor {
        elevator_id: 1,
        floor: 3,
    })));
    let (e, w) = m.finish_turn(&mut last_e, &mut last_w);
    assert_eq!(*e.unwrap().get_floor(), 3);
    assert_eq!(*w.unwrap().get_elevator(1).get_floor(), 3);
    assert_eq!(*last_e.unwrap().get_floor(), 3);
}

#[test]
fn a_picture_without_its_senders_record_can_be_merged() {
    let w = WorldView::from_received_parts(2, 20, HashMap::new(), HallOrderQueue::new(), HashMap::new(), HashMap::new());
    let w = w.unwrap();
    let mut a = WorldView::new(1, 10);
    assert!(a.can_synchronize(&w));
    a.synchronize_world_view(w);
    assert_eq!(a.get_elevator_statuses().len(), 1);
    let mut bad = HashMap::new();
    bad.insert(5u16, hall(6, 0, OrderDirection::Up));
    let q = HallOrderQueue::from_parts(bad, vec![]);
    assert!(WorldView::from_received_parts(2, 20, HashMap::new(), q, HashMap::new(), HashMap::new()).is_none());
}

#[test]
fn a_tick_looks_up_only_floors_that_exist() {
    let reqs = vec![FloorDirection::new(); 4];
    let mut d = ElevatorData::new();
    assert!(can_tick(&d, &reqs, 0));
    d.current_floor = 7;
    d.next_stop = 7;
    assert!(!can_tick(&d, &reqs, 0));
    d.door_status = true;
    d.door_timeout = Some(0);
    assert!(can_tick(&d, &reqs, 10));
    d.motor_direction = MotorState::Down;
    assert!(!can_tick(&d, &reqs, 5000));
    d.current_floor = 4;
    assert!(can_tick(&d, &reqs, 5000));
}
