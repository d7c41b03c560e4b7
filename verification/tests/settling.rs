use elevator_control::hardware::{hardware_tick, ElevatorData, FloorDirection, MotorState};
use elevator_control::memory::hall_order_queue::HallOrderQueue;
use elevator_control::memory::orders::{Order, OrderDirection, OrderStatus, OrderType};
use elevator_control::memory::world_view::{ElevatorStatusCommand, HallOrderQueueCommand, WorldView};
use elevator_control::message::hardware_msg::HardwareData;

fn hall(id: u16, s: OrderStatus, barrier: Vec<u16>) -> Order {
    Order::from_parts(id, 1, OrderType::Hall, OrderDirection::Up, s, barrier)
}

#[test]
fn merging_the_same_acknowledgements_twice_changes_nothing() {
    let mut o = hall(1, OrderStatus::Unconfirmed, vec![3, 1]);
    o.merge_ack_barrier(&vec![1, 2, 2, 5]);
    let once = o.get_ack_barrier().clone();
    o.merge_ack_barrier(&vec![1, 2, 2, 5]);
    assert_eq!(*o.get_ack_barrier(), once);
    assert_eq!(once, vec![3, 1, 2, 5]);
}

#[test]
fn a_second_pass_of_the_hall_status_manager_changes_nothing() {
    let mut q = HallOrderQueue::new();
    q.add_to_queue(hall(1, OrderStatus::Unconfirmed, vec![1, 2]));
    q.add_to_queue(hall(2, OrderStatus::Completed, vec![2, 1]));
    q.add_to_queue(hall(3, OrderStatus::ReadyForDeletion, vec![1, 2]));
    q.add_to_queue(hall(4, OrderStatus::Unconfirmed, vec![2]));
    q.hall_order_status_manager(2);
    let once = q.clone();
    q.hall_order_status_manager(2);
    assert_eq!(q, once);
}

#[test]
fn a_second_maintenance_pass_changes_nothing() {
    let mut w = WorldView::new(1, 10);
    w.edit_hall_order_queue(HallOrderQueueCommand::AddToHallOrderQueue { order: hall(5, OrderStatus::Unconfirmed, vec![]) });
    w.edit_hall_order_queue(HallOrderQueueCommand::AddToHallOrderQueue {
        order: hall(6, OrderStatus::ReadyForDeletion, vec![]),
    });
    w.edit_elevator_status(ElevatorStatusCommand::AddCabOrder {
        elevator_id: 1,
        order: Order::new_with_id(7, 2, OrderType::Cab, OrderDirection::Up),
    });
    w.edit_elevator_status(ElevatorStatusCommand::AddCabOrder {
        elevator_id: 1,
        order: Order::from_parts(8, 3, OrderType::Cab, OrderDirection::Up, OrderStatus::Completed, vec![]),
    });
    w.maintain_order_statuses();
    let once = w.clone();
    assert_eq!(*once.get_hall_order_queue().get_hall_order(5).get_order_status(), OrderStatus::Confirmed);
    assert!(!once.get_hall_order_queue().get_order_queue().contains_key(&6));
    let cab = once.get_elevator(1).get_cab_orders();
    assert_eq!(*cab[0].get_order_status(), OrderStatus::Confirmed);
    assert_eq!(*cab[1].get_order_status(), OrderStatus::ReadyForDeletion);
    w.maintain_order_statuses();
    assert_eq!(w, once);
}

#[test]
fn merging_keeps_every_record_and_records_the_sender() {
    let mut a = WorldView::new(1, 100);
    let mut b = WorldView::new(2, 200);
    b.synchronize_world_view(a.clone());
    a.synchronize_world_view(b.clone());
    b.synchronize_world_view(a.clone());
    a.synchronize_world_view(b.clone());
    assert!(a.get_elevator_statuses().contains_key(&1));
    assert!(a.get_elevator_statuses().contains_key(&2));
    assert_eq!(a.get_id(), 1);
    assert_eq!(a.get_session_id(), 100);
    assert_eq!(a.get_recorded_session_ids().get(&2), Some(&200));
}

#[test]
fn a_cab_request_at_the_stop_opens_the_door_and_the_motor_stands() {
    let mut d = ElevatorData::new();
    d.current_floor = 3;
    d.next_stop = 3;
    d.motor_direction = MotorState::Down;
    let mut reqs = vec![FloorDirection::new(); 4];
    reqs[3].cab = true;
    hardware_tick(&mut d, &reqs, 40);
    assert!(d.door_status);
    assert_eq!(d.motor_direction, MotorState::Stop);
    assert_eq!(d.door_timeout, Some(40));
    let c = hardware_tick(&mut d, &reqs, 50);
    assert!(c.iter().all(|x| !matches!(x, HardwareData::SetMotorDirection(v) if *v != 0)));
    assert_eq!(*c.last().unwrap(), HardwareData::SetMotorDirection(0));
}

#[test]
fn a_peers_acknowledgements_of_own_cab_orders_are_added_not_lost() {
    let mut a = WorldView::new(1, 100);
    let mut b = WorldView::new(2, 200);
    a.edit_elevator_status(ElevatorStatusCommand::AddCabOrder {
        elevator_id: 1,
        order: Order::new_with_id(7, 2, OrderType::Cab, OrderDirection::Up),
    });
    for _ in 0..3 {
        b.synchronize_world_view(a.clone());
        a.synchronize_world_view(b.clone());
    }
    let barrier = a.get_elevator(1).get_cab_orders()[0].get_ack_barrier().clone();
    assert_eq!(barrier[0], 1);
    assert!(barrier.contains(&2));
    assert_eq!(*a.get_elevator(1).get_cab_orders()[0].get_order_id(), 7);
}
