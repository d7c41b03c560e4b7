use elevator_control::memory::elevator::Obstruction;
use elevator_control::memory::orders::{OrderDirection, OrderStatus, OrderType};
use elevator_control::memory::world_view::{ElevatorStatusCommand, WorldView};
use elevator_control::message::hardware_msg::{ConvertedCallButton, HardwareData};
use elevator_control::message::memory_msg::{get_obstruction, MemoryData};
use elevator_control::message::network_msg::{NetworkData, SYSTEM_IDENTIFIER};
use elevator_control::message::{Message, MessageContent, LOCAL_ID};

fn sync_data(id: u16) -> MemoryData {
    MemoryData { data: ElevatorStatusCommand::SynchronizeWorldView { world_view: WorldView::new(id, 1) } }
}

#[test]
fn new_messages_are_local() {
    let m = Message::new(MessageContent::Hardware(HardwareData::FloorSensor(2)));
    assert_eq!(m.id, LOCAL_ID);
    assert!(matches!(m.data, MessageContent::Hardware(HardwareData::FloorSensor(2))));
}

#[test]
fn obstruction_readings() {
    assert_eq!(get_obstruction(true), Obstruction::Obstructed);
    assert_eq!(get_obstruction(false), Obstruction::Clear);
}

#[test]
fn hardware_events_become_memory_commands() {
    let m = MemoryData::try_from_hardware(HardwareData::FloorSensor(3)).unwrap();
    assert!(matches!(m.data, ElevatorStatusCommand::SetFloor { elevator_id: 0, floor: 3 }));
    let m = MemoryData::try_from_hardware(HardwareData::Obstruction(true)).unwrap();
    assert!(matches!(m.data, ElevatorStatusCommand::SetObstruction { elevator_id: 0, obstruction: Obstruction::Obstructed }));
    assert!(MemoryData::try_from_hardware(HardwareData::StopButton(true)).is_err());
    assert!(MemoryData::try_from_hardware(HardwareData::SetDoorLight(true)).is_err());
}

#[test]
fn a_pressed_button_places_an_order() {
    let b = ConvertedCallButton::from_call_button(1, 2);
    assert_eq!((b.floor, b.call), (1, 2));
    let m = MemoryData::try_from_hardware_with_order_id(HardwareData::CallButton(b), 33).unwrap();
    match m.data {
        ElevatorStatusCommand::AddCabOrder { elevator_id, order } => {
            assert_eq!(elevator_id, 0);
            assert_eq!(*order.get_order_id(), 33);
            assert_eq!(*order.get_floor(), 1);
            assert_eq!(*order.get_order_type(), OrderType::Cab);
            assert_eq!(*order.get_direction(), OrderDirection::Down);
            assert_eq!(*order.get_order_status(), OrderStatus::Unconfirmed);
            assert!(order.get_ack_barrier().is_empty());
        },
        other => panic!("unexpected {:?}", other),
    }
    let m = MemoryData::try_from_hardware(HardwareData::CallButton(ConvertedCallButton::from_call_button(2, 0))).unwrap();
    match m.data {
        ElevatorStatusCommand::AddCabOrder { order, .. } => {
            assert_eq!(*order.get_floor(), 2);
            assert_eq!(*order.get_order_type(), OrderType::Hall);
            assert_eq!(*order.get_direction(), OrderDirection::Up);
        },
        other => panic!("unexpected {:?}", other),
    }
}

#[test]
fn messages_turn_into_memory_form() {
    let m = Message::new(MessageContent::Hardware(HardwareData::FloorSensor(1))).try_into_memory();
    assert!(matches!(m.data, MessageContent::Memory(MemoryData { data: ElevatorStatusCommand::SetFloor { floor: 1, .. } })));
    let n = Message { id: 5, data: MessageContent::Network(NetworkData::new(WorldView::new(7, 1), 3)) };
    let m = n.try_into_memory();
    assert_eq!(m.id, 5);
    match m.data {
        MessageContent::Memory(MemoryData { data: ElevatorStatusCommand::SynchronizeWorldView { world_view } }) => {
            assert_eq!(world_view.get_id(), 7)
        },
        other => panic!("unexpected {:?}", other),
    }
}

#[test]
fn messages_turn_into_network_form() {
    let m = Message::new(MessageContent::Memory(sync_data(4))).try_into_network().unwrap();
    match m.data {
        MessageContent::Network(n) => {
            assert_eq!(n.source_id, SYSTEM_IDENTIFIER);
            assert_eq!(n.machine_id, 0);
            assert_eq!(n.data.get_id(), 4);
        },
        other => panic!("unexpected {:?}", other),
    }
    let floor = MemoryData { data: ElevatorStatusCommand::SetFloor { elevator_id: 0, floor: 1 } };
    assert!(Message::new(MessageContent::Memory(floor)).try_into_network().is_err());
    assert!(Message::new(MessageContent::Hardware(HardwareData::StopButton(true))).try_into_network().is_err());
    let n = Message::new(MessageContent::Network(NetworkData::new(WorldView::new(2, 2), 8)));
    assert!(matches!(n.try_into_network().unwrap().data, MessageContent::Network(NetworkData { machine_id: 8, .. })));
}

#[test]
fn messages_turn_into_hardware_form() {
    let floor = MemoryData { data: ElevatorStatusCommand::SetFloor { elevator_id: 0, floor: 3 } };
    let m = Message::new(MessageContent::Memory(floor)).try_into_hardware().unwrap();
    assert!(matches!(m.data, MessageContent::Hardware(HardwareData::SetFloorIndicator(3))));
    let h = Message::new(MessageContent::Hardware(HardwareData::SetDoorLight(true))).try_into_hardware().unwrap();
    assert!(matches!(h.data, MessageContent::Hardware(HardwareData::SetDoorLight(true))));
    let n = Message::new(MessageContent::Network(NetworkData::new(WorldView::new(2, 2), 8)));
    assert!(n.try_into_hardware().is_err());
}

#[test]
fn network_data_from_memory() {
    assert_eq!(SYSTEM_IDENTIFIER, [0xF0, 0x9F, 0x8D, 0x86]);
    let n = NetworkData::try_from_memory(sync_data(6)).unwrap();
    assert_eq!((n.source_id, n.machine_id, n.data.get_id()), (SYSTEM_IDENTIFIER, 0, 6));
    let other = MemoryData { data: ElevatorStatusCommand::RemoveCabOrder { elevator_id: 0 } };
    assert!(NetworkData::try_from_memory(other).is_err());
    let n = sync_data(6).memory_to_network(99).unwrap();
    assert_eq!(n.machine_id, 99);
    let other = MemoryData { data: ElevatorStatusCommand::RemoveCabOrder { elevator_id: 0 } };
    assert!(other.memory_to_network(1).is_err());
    assert!(sync_data(1).memory_to_hardware().is_err());
    let back = MemoryData::from_network(NetworkData::new(WorldView::new(3, 1), 0));
    assert!(matches!(back.data, ElevatorStatusCommand::SynchronizeWorldView { .. }));
}

#[test]
fn floor_updates_are_shown_as_the_floor_indicator() {
    let h = HardwareData::try_from_memory(MemoryData { data: ElevatorStatusCommand::SetFloor { elevator_id: 1, floor: 2 } });
    assert_eq!(h, Ok(HardwareData::SetFloorIndicator(2)));
    assert_eq!(HardwareData::try_from_memory(sync_data(1)), Err(()));
}
