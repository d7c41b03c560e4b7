use std::collections::VecDeque;

use elevator_control::hardware::{
    call_button_handler, dir_swap, find_highest, find_lowest, floor_requests, floor_sensor_handler,
    handle_order_message, hardware_tick, light_commands, obstruction_handler, stop_button_handler, stop_logic,
    choose_next_stop, ElevatorData, FloorDirection, MotorState,
};
use elevator_control::memory::orders::{Order, OrderDirection, OrderStatus, OrderType};
use elevator_control::memory::world_view::ElevatorStatusCommand;
use elevator_control::message::hardware_msg::HardwareData;
use elevator_control::message::memory_msg::MemoryData;
use elevator_control::message::{Message, MessageContent};

fn none() -> FloorDirection {
    FloorDirection::new()
}

fn cab_at(f: usize) -> Vec<FloorDirection> {
    let mut v = vec![none(); 4];
    v[f].cab = true;
    v
}

fn o(id: u16, floor: u8, t: OrderType, d: OrderDirection, s: OrderStatus) -> Order {
    Order::from_parts(id, floor, t, d, s, vec![])
}

#[test]
fn fresh_state() {
    assert_eq!(none(), FloorDirection { up: false, down: false, cab: false });
    let d = ElevatorData::new();
    assert_eq!(d.current_floor, 0);
    assert_eq!(d.next_stop, 0);
    assert_eq!(d.motor_direction, MotorState::Up);
    assert!(!d.door_status);
    assert_eq!(d.door_timeout, None);
}

#[test]
fn requests_come_from_confirmed_orders() {
    let mut q = VecDeque::new();
    q.push_back(o(1, 0, OrderType::Hall, OrderDirection::Up, OrderStatus::Confirmed));
    q.push_back(o(2, 2, OrderType::Cab, OrderDirection::Up, OrderStatus::Confirmed));
    q.push_back(o(3, 3, OrderType::Hall, OrderDirection::Up, OrderStatus::Unconfirmed));
    q.push_back(o(4, 3, OrderType::Hall, OrderDirection::Down, OrderStatus::Confirmed));
    q.push_back(o(5, 9, OrderType::Hall, OrderDirection::Down, OrderStatus::Completed));
    let r = floor_requests(&q);
    assert_eq!(r[0], FloorDirection { up: true, down: false, cab: false });
    assert_eq!(r[1], none());
    assert_eq!(r[2], FloorDirection { up: false, down: false, cab: true });
    assert_eq!(r[3], FloorDirection { up: false, down: true, cab: false });
}

#[test]
fn lights_follow_the_requests() {
    let mut r = vec![none(); 4];
    r[1].down = true;
    r[3].cab = true;
    let l = light_commands(&r);
    assert_eq!(l.len(), 12);
    assert_eq!(l[0], HardwareData::SetCallButtonLight { floor: 0, call: 0, status: false });
    assert_eq!(l[4], HardwareData::SetCallButtonLight { floor: 1, call: 1, status: true });
    assert_eq!(l[11], HardwareData::SetCallButtonLight { floor: 3, call: 2, status: true });
    assert_eq!(l.iter().filter(|c| matches!(c, HardwareData::SetCallButtonLight { status: true, .. })).count(), 2);
}

#[test]
fn an_order_list_message_sets_requests_and_lights() {
    let mut q = VecDeque::new();
    q.push_back(o(1, 2, OrderType::Cab, OrderDirection::Up, OrderStatus::Confirmed));
    let msg = Message::new(MessageContent::Memory(MemoryData {
        data: ElevatorStatusCommand::SetCabOrders { elevator_id: 0, orders: q },
    }));
    let mut reqs = vec![none(); 4];
    let lights = handle_order_message(msg, &mut reqs);
    assert_eq!(reqs, cab_at(2));
    assert_eq!(lights.len(), 12);

    let empty = Message::new(MessageContent::Memory(MemoryData {
        data: ElevatorStatusCommand::SetCabOrders { elevator_id: 0, orders: VecDeque::new() },
    }));
    let lights = handle_order_message(empty, &mut reqs);
    assert_eq!(reqs, vec![none(); 4]);
    assert!(lights.is_empty());

    let mut reqs = cab_at(1);
    let other = Message::new(MessageContent::Hardware(HardwareData::FloorSensor(1)));
    assert!(handle_order_message(other, &mut reqs).is_empty());
    assert_eq!(reqs, cab_at(1));
}

#[test]
fn finding_requested_floors() {
    let mut r = vec![none(); 4];
    r[1].up = true;
    r[3].down = true;
    assert_eq!(find_lowest(&r, 0, 4), Some(1));
    assert_eq!(find_lowest(&r, 2, 4), Some(3));
    assert_eq!(find_highest(&r, 0, 4), Some(3));
    assert_eq!(find_highest(&r, 0, 3), Some(1));
    assert_eq!(find_highest(&r, 0, 1), None);
    assert_eq!(find_lowest(&vec![none(); 4], 0, 4), None);
}

#[test]
fn swapping_directions() {
    assert_eq!(dir_swap(MotorState::Up), MotorState::Down);
    assert_eq!(dir_swap(MotorState::Down), MotorState::Up);
    assert_eq!(dir_swap(MotorState::Stop), MotorState::Up);
}

#[test]
fn stopping_opens_the_door() {
    let mut d = ElevatorData::new();
    let c = stop_logic(&mut d, 500);
    assert_eq!(c, vec![HardwareData::SetMotorDirection(0), HardwareData::SetDoorLight(true)]);
    assert_eq!(d.motor_direction, MotorState::Stop);
    assert!(d.door_status);
    assert_eq!(d.door_timeout, Some(500));
}

#[test]
fn next_stop_going_up_then_turning() {
    let mut d = ElevatorData::new();
    d.current_floor = 2;
    d.motor_direction = MotorState::Up;
    let mut r = vec![none(); 4];
    r[3].cab = true;
    r[0].up = true;
    choose_next_stop(&mut d, &r);
    assert_eq!((d.next_stop, d.motor_direction), (3, MotorState::Up));
    let mut r = vec![none(); 4];
    r[0].up = true;
    choose_next_stop(&mut d, &r);
    assert_eq!((d.next_stop, d.motor_direction), (0, MotorState::Down));
    d.motor_direction = MotorState::Stop;
    d.current_floor = 1;
    let r = cab_at(3);
    choose_next_stop(&mut d, &r);
    assert_eq!((d.next_stop, d.motor_direction), (3, MotorState::Up));
}

#[test]
fn a_trip_to_a_requested_floor() {
    let mut d = ElevatorData::new();
    let reqs = cab_at(2);
    // Standing at floor 0 heading up with nothing here: turn, then aim for floor 2.
    let c = hardware_tick(&mut d, &reqs, 0);
    assert_eq!(c, vec![HardwareData::SetFloorIndicator(0)]);
    assert_eq!((d.next_stop, d.motor_direction), (2, MotorState::Up));
    let c = hardware_tick(&mut d, &reqs, 10);
    assert_eq!(c, vec![HardwareData::SetFloorIndicator(0), HardwareData::SetMotorDirection(1)]);
    d.current_floor = 2;
    let c = hardware_tick(&mut d, &reqs, 100);
    assert_eq!(
        c,
        vec![HardwareData::SetFloorIndicator(2), HardwareData::SetMotorDirection(0), HardwareData::SetDoorLight(true)]
    );
    assert!(d.door_status);
    let c = hardware_tick(&mut d, &reqs, 3099);
    assert_eq!(c, vec![HardwareData::SetFloorIndicator(2), HardwareData::SetMotorDirection(0)]);
    assert!(d.door_status);
    let c = hardware_tick(&mut d, &reqs, 3100);
    assert_eq!(
        c,
        vec![HardwareData::SetFloorIndicator(2), HardwareData::SetDoorLight(false), HardwareData::SetMotorDirection(0)]
    );
    assert!(!d.door_status);
    assert_eq!(d.door_timeout, None);
}

#[test]
fn an_obstructed_door_stays_open() {
    let mut d = ElevatorData::new();
    d.door_status = true;
    d.door_timeout = Some(0);
    d.obstruction = true;
    let c = hardware_tick(&mut d, &vec![none(); 4], 100_000);
    assert!(d.door_status);
    assert_eq!(d.door_timeout, Some(100_000));
    assert_eq!(*c.last().unwrap(), HardwareData::SetMotorDirection(0));
}

#[test]
fn the_stop_button_halts_the_motor_between_floors() {
    let mut d = ElevatorData::new();
    d.current_floor = 1;
    d.next_stop = 3;
    d.stop_button = true;
    let c = hardware_tick(&mut d, &cab_at(3), 0);
    assert_eq!(c, vec![HardwareData::SetFloorIndicator(1), HardwareData::SetMotorDirection(0)]);
    d.stop_button = false;
    d.current_floor = 3;
    d.next_stop = 1;
    d.motor_direction = MotorState::Down;
    let c = hardware_tick(&mut d, &cab_at(1), 0);
    assert_eq!(c, vec![HardwareData::SetFloorIndicator(3), HardwareData::SetMotorDirection(255)]);
}

#[test]
fn input_handlers_build_messages() {
    let m = call_button_handler(2, 1);
    assert_eq!(m.id, 0);
    assert!(matches!(m.data, MessageContent::Hardware(HardwareData::CallButton(b)) if b.floor == 2 && b.call == 1));
    assert!(matches!(floor_sensor_handler(3).data, MessageContent::Hardware(HardwareData::FloorSensor(3))));
    assert!(matches!(stop_button_handler(true).data, MessageContent::Hardware(HardwareData::StopButton(true))));
    assert!(matches!(obstruction_handler(false).data, MessageContent::Hardware(HardwareData::Obstruction(false))));
}
