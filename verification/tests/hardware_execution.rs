use std::collections::VecDeque;

use elevator_control::hardware_execution::{
    call_button_command, call_button_update, choose_hall_directions_to_clear, choose_next_floor,
    execute_elevator_state, floor_sensor_update, mark_served_orders, obstruction_update, update_lights,
    HardwareAction, HardwareExecutionState, CAB, DIRN_DOWN, DIRN_STOP, DIRN_UP, DOOR_OPEN_MS, HALL_DOWN, HALL_UP,
    TRAVEL_TIMEOUT_MS,
};
use elevator_control::memory::elevator::{Behaviour, DeadOrAlive, Elevator, ElevatorDirection, Obstruction};
use elevator_control::memory::orders::{Order, OrderDirection, OrderStatus, OrderType};
use elevator_control::memory::world_view::{ElevatorStatusCommand, HallOrderQueueCommand, MemoryCommand};

fn o(id: u16, floor: u8, t: OrderType, d: OrderDirection, s: OrderStatus) -> Order {
    Order::from_parts(id, floor, t, d, s, vec![])
}

fn elevator(floor: u8, cab: Vec<Order>) -> Elevator {
    let mut e = Elevator::new(1, 1);
    e.set_floor(floor);
    e.set_cab_orders(cab.into_iter().collect::<VecDeque<Order>>());
    e
}

fn has(actions: &[HardwareAction], f: impl Fn(&HardwareAction) -> bool) -> bool {
    actions.iter().any(f)
}

#[test]
fn fresh_execution_state() {
    let s = HardwareExecutionState::new();
    assert!(s.door_open_until.is_none());
    assert!(s.direction_to_clear_after_wait.is_none());
    assert!(s.travel_target_floor.is_none());
    assert!(s.travel_start_time.is_none());
}

#[test]
fn the_first_nearest_order_wins() {
    let v = vec![
        o(1, 0, OrderType::Cab, OrderDirection::Up, OrderStatus::Confirmed),
        o(2, 3, OrderType::Cab, OrderDirection::Up, OrderStatus::Confirmed),
        o(3, 1, OrderType::Cab, OrderDirection::Up, OrderStatus::Confirmed),
    ];
    assert_eq!(choose_next_floor(2, &v), 3);
    assert_eq!(choose_next_floor(0, &v), 0);
    assert_eq!(choose_next_floor(2, &vec![]), 2);
}

#[test]
fn hall_directions_to_clear_prefer_the_way_on() {
    let e = elevator(1, vec![]);
    let hall = vec![
        o(1, 1, OrderType::Hall, OrderDirection::Up, OrderStatus::Confirmed),
        o(2, 1, OrderType::Hall, OrderDirection::Down, OrderStatus::Confirmed),
    ];
    let mut all = hall.clone();
    assert_eq!(choose_hall_directions_to_clear(&e, &hall, &all, 1), (Some(OrderDirection::Up), Some(OrderDirection::Down)));
    all.push(o(3, 0, OrderType::Cab, OrderDirection::Up, OrderStatus::Confirmed));
    assert_eq!(choose_hall_directions_to_clear(&e, &hall, &all, 1), (Some(OrderDirection::Down), None));
    all.push(o(4, 3, OrderType::Cab, OrderDirection::Up, OrderStatus::Confirmed));
    assert_eq!(choose_hall_directions_to_clear(&e, &hall, &all, 1), (Some(OrderDirection::Up), None));
    let mut down = elevator(1, vec![]);
    down.set_direction(ElevatorDirection::Down);
    assert_eq!(choose_hall_directions_to_clear(&down, &hall, &hall, 1), (Some(OrderDirection::Down), Some(OrderDirection::Up)));
    assert_eq!(choose_hall_directions_to_clear(&e, &hall, &hall, 2), (None, None));
}

#[test]
fn lights_show_open_cab_and_confirmed_hall_orders() {
    let cab: VecDeque<Order> = vec![
        o(1, 0, OrderType::Cab, OrderDirection::Up, OrderStatus::Unconfirmed),
        o(2, 2, OrderType::Cab, OrderDirection::Up, OrderStatus::Completed),
    ]
    .into_iter()
    .collect();
    let hall = vec![
        o(3, 1, OrderType::Hall, OrderDirection::Down, OrderStatus::Confirmed),
        o(4, 3, OrderType::Hall, OrderDirection::Up, OrderStatus::Unconfirmed),
    ];
    let l = update_lights(&cab, &hall, 4);
    assert_eq!(l.len(), 12);
    let on: Vec<(u8, u8)> = l
        .iter()
        .filter_map(|a| match a {
            HardwareAction::CallButtonLight { floor, call, on: true } => Some((*floor, *call)),
            _ => None,
        })
        .collect();
    assert_eq!(on, vec![(0, CAB), (1, HALL_DOWN)]);
    assert!(matches!(l[1], HardwareAction::CallButtonLight { floor: 0, call: HALL_UP, on: false }));
}

#[test]
fn serving_a_floor_completes_its_orders() {
    let e = elevator(
        1,
        vec![
            o(1, 1, OrderType::Cab, OrderDirection::Up, OrderStatus::Confirmed),
            o(2, 2, OrderType::Cab, OrderDirection::Up, OrderStatus::Confirmed),
            o(3, 1, OrderType::Cab, OrderDirection::Up, OrderStatus::Confirmed),
        ],
    );
    let hall = vec![
        o(10, 1, OrderType::Hall, OrderDirection::Up, OrderStatus::Confirmed),
        o(11, 1, OrderType::Hall, OrderDirection::Down, OrderStatus::Confirmed),
    ];
    let a = mark_served_orders(&e, &hall, 1, Some(OrderDirection::Up), 1);
    assert_eq!(a.len(), 3);
    assert!(matches!(&a[0], HardwareAction::Send(MemoryCommand::ElevatorStatus(ElevatorStatusCommand::SetCabOrderStatus {
        elevator_id: 1, order_id: 1, status: OrderStatus::Completed }))));
    assert!(matches!(&a[1], HardwareAction::Send(MemoryCommand::ElevatorStatus(ElevatorStatusCommand::SetCabOrderStatus {
        order_id: 3, .. }))));
    assert!(matches!(&a[2], HardwareAction::Send(MemoryCommand::HallOrderQueue(HallOrderQueueCommand::SetHallOrderStatus {
        order_id: 10, status: OrderStatus::Completed }))));
    assert_eq!(mark_served_orders(&e, &hall, 1, None, 1).len(), 2);
}

#[test]
fn a_dead_elevator_stands_with_the_door_closed() {
    let mut e = elevator(1, vec![o(1, 3, OrderType::Cab, OrderDirection::Up, OrderStatus::Confirmed)]);
    e.set_dead_or_alive(DeadOrAlive::Dead);
    let mut st = HardwareExecutionState::new();
    st.door_open_until = Some(5);
    let a = execute_elevator_state(&e, &vec![], 1, &mut st, 4, 0);
    assert!(st.door_open_until.is_none() && st.travel_target_floor.is_none());
    assert!(has(&a, |x| matches!(x, HardwareAction::MotorDirection(DIRN_STOP))));
    assert!(has(&a, |x| matches!(x, HardwareAction::DoorLight(false))));
    assert!(!has(&a, |x| matches!(x, HardwareAction::MotorDirection(DIRN_UP))));
}

#[test]
fn without_orders_the_elevator_idles() {
    let e = elevator(2, vec![]);
    let mut st = HardwareExecutionState::new();
    let a = execute_elevator_state(&e, &vec![], 1, &mut st, 4, 0);
    assert_eq!(a.len(), 12 + 1 + 2);
    assert!(matches!(a[12], HardwareAction::FloorIndicator(2)));
    assert!(matches!(a[13], HardwareAction::MotorDirection(DIRN_STOP)));
    assert!(matches!(a[14], HardwareAction::DoorLight(false)));
}

#[test]
fn arriving_opens_the_door_and_serves_the_floor() {
    let e = elevator(2, vec![o(7, 2, OrderType::Cab, OrderDirection::Up, OrderStatus::Confirmed)]);
    let mut st = HardwareExecutionState::new();
    let a = execute_elevator_state(&e, &vec![], 1, &mut st, 4, 1000);
    assert_eq!(st.door_open_until, Some(1000 + DOOR_OPEN_MS));
    assert!(has(&a, |x| matches!(x, HardwareAction::DoorLight(true))));
    assert!(has(&a, |x| matches!(x, HardwareAction::Send(MemoryCommand::ElevatorStatus(
        ElevatorStatusCommand::SetBehaviour { behavior: Behaviour::DoorOpen, .. })))));
    assert!(has(&a, |x| matches!(x, HardwareAction::Send(MemoryCommand::ElevatorStatus(
        ElevatorStatusCommand::SetCabOrderStatus { order_id: 7, status: OrderStatus::Completed, .. })))));

    let mut door_open = elevator(2, vec![]);
    door_open.set_behavior(Behaviour::DoorOpen);
    let a = execute_elevator_state(&door_open, &vec![], 1, &mut st, 4, 1000 + DOOR_OPEN_MS - 1);
    assert!(st.door_open_until.is_some());
    assert!(!has(&a, |x| matches!(x, HardwareAction::DoorLight(false))));
    let a = execute_elevator_state(&door_open, &vec![], 1, &mut st, 4, 1000 + DOOR_OPEN_MS);
    assert!(st.door_open_until.is_none());
    assert!(matches!(a.last(), Some(HardwareAction::DoorLight(false))));
}

#[test]
fn an_obstructed_door_is_held_open() {
    let mut e = elevator(2, vec![]);
    e.set_obstruction(Obstruction::Obstructed);
    let mut st = HardwareExecutionState::new();
    st.door_open_until = Some(10);
    let a = execute_elevator_state(&e, &vec![], 1, &mut st, 4, 50_000);
    assert_eq!(st.door_open_until, Some(50_000 + DOOR_OPEN_MS));
    assert!(has(&a, |x| matches!(x, HardwareAction::DoorLight(true))));
}

#[test]
fn travelling_drives_towards_the_nearest_order_until_the_timeout() {
    let e = elevator(0, vec![o(7, 3, OrderType::Cab, OrderDirection::Up, OrderStatus::Confirmed)]);
    let mut st = HardwareExecutionState::new();
    let a = execute_elevator_state(&e, &vec![], 1, &mut st, 4, 0);
    assert_eq!(st.travel_target_floor, Some(3));
    assert_eq!(st.travel_start_time, Some(0));
    assert!(matches!(a.last(), Some(HardwareAction::MotorDirection(DIRN_UP))));
    let a = execute_elevator_state(&e, &vec![], 1, &mut st, 4, TRAVEL_TIMEOUT_MS);
    assert!(matches!(a.last(), Some(HardwareAction::MotorDirection(DIRN_UP))));
    let a = execute_elevator_state(&e, &vec![], 1, &mut st, 4, TRAVEL_TIMEOUT_MS + 1);
    assert!(has(&a, |x| matches!(x, HardwareAction::Send(MemoryCommand::ElevatorStatus(
        ElevatorStatusCommand::SetDeadOrAlive { elevator_id: 1, dead_or_alive: DeadOrAlive::Dead })))));
    assert!(has(&a, |x| matches!(x, HardwareAction::MotorDirection(DIRN_STOP))));

    let down = elevator(3, vec![o(8, 0, OrderType::Cab, OrderDirection::Up, OrderStatus::Confirmed)]);
    let mut st = HardwareExecutionState::new();
    let a = execute_elevator_state(&down, &vec![], 1, &mut st, 4, 0);
    assert!(matches!(a.last(), Some(HardwareAction::MotorDirection(DIRN_DOWN))));
}

#[test]
fn sensor_updates_report_changes_only() {
    let (c, f) = floor_sensor_update(1, Some(2), 4);
    assert!(matches!(c, Some(MemoryCommand::ElevatorStatus(ElevatorStatusCommand::SetFloor { elevator_id: 4, floor: 2 }))));
    assert_eq!(f, 2);
    let (c, f) = floor_sensor_update(2, Some(2), 4);
    assert!(c.is_none());
    assert_eq!(f, 2);
    let (c, f) = floor_sensor_update(2, None, 4);
    assert!(c.is_none());
    assert_eq!(f, 2);
    let (c, s) = obstruction_update(Obstruction::Clear, true, 4);
    assert!(matches!(c, Some(MemoryCommand::ElevatorStatus(ElevatorStatusCommand::SetObstruction {
        obstruction: Obstruction::Obstructed, .. }))));
    assert_eq!(s, Obstruction::Obstructed);
    let (c, s) = obstruction_update(Obstruction::Obstructed, true, 4);
    assert!(c.is_none());
    assert_eq!(s, Obstruction::Obstructed);
}

#[test]
fn a_new_press_places_an_order() {
    match call_button_command(2, HALL_UP, true, false, 5, 99) {
        Some(MemoryCommand::HallOrderQueue(HallOrderQueueCommand::AddToHallOrderQueue { order })) => {
            assert_eq!(*order.get_order_id(), 99);
            assert_eq!(*order.get_floor(), 2);
            assert_eq!(*order.get_order_type(), OrderType::Hall);
            assert_eq!(*order.get_direction(), OrderDirection::Up);
            assert_eq!(*order.get_ack_barrier(), vec![5]);
        },
        other => panic!("unexpected {:?}", other),
    }
    match call_button_command(1, CAB, true, false, 5, 98) {
        Some(MemoryCommand::ElevatorStatus(ElevatorStatusCommand::AddCabOrder { elevator_id, order })) => {
            assert_eq!(elevator_id, 5);
            assert_eq!(*order.get_order_type(), OrderType::Cab);
        },
        other => panic!("unexpected {:?}", other),
    }
    assert!(call_button_command(1, HALL_DOWN, true, true, 5, 1).is_none());
    assert!(call_button_command(1, HALL_DOWN, false, false, 5, 1).is_none());
    assert!(call_button_command(1, 3, true, false, 5, 1).is_none());
    match call_button_update(3, HALL_DOWN, true, false, 5) {
        Some(MemoryCommand::HallOrderQueue(HallOrderQueueCommand::AddToHallOrderQueue { order })) => {
            assert_eq!(*order.get_floor(), 3);
            assert_eq!(*order.get_direction(), OrderDirection::Down);
            assert_eq!(*order.get_order_status(), OrderStatus::Unconfirmed);
        },
        other => panic!("unexpected {:?}", other),
    }
}
