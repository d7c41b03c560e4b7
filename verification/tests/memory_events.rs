use elevator_control::memory::elevator::DeadOrAlive;
use elevator_control::memory::memory_events::{MemoryEvent, MemoryState, PEER_TIMEOUT_MS};
use elevator_control::memory::orders::{Order, OrderDirection, OrderStatus, OrderType};
use elevator_control::memory::world_view::{
    ElevatorStatusCommand, HallOrderQueueCommand, MemoryCommand, WorldView,
};

fn handle(m: &mut MemoryState, e: MemoryEvent) {
    assert!(m.can_handle_event(&e));
    m.handle_event(e);
}

fn peer_picture(m: &MemoryState, peer: &mut WorldView) -> WorldView {
    assert!(peer.can_synchronize(m.get_world_view()));
    peer.synchronize_world_view(m.get_world_view().clone());
    peer.clone()
}

#[test]
fn new_state_holds_a_fresh_picture() {
    let m = MemoryState::new(1, 10, 0);
    assert_eq!(m.get_world_view().get_id(), 1);
    assert_eq!(m.get_world_view().get_session_id(), 10);
    assert_eq!(m.get_world_view().get_elevator_statuses().len(), 1);
}

#[test]
fn commands_edit_the_picture() {
    let mut m = MemoryState::new(1, 10, 0);
    handle(&mut m, MemoryEvent::Command(MemoryCommand::ElevatorStatus(ElevatorStatusCommand::SetFloor {
        elevator_id: 1,
        floor: 2,
    })));
    handle(&mut m, MemoryEvent::Command(MemoryCommand::HallOrderQueue(HallOrderQueueCommand::AddToHallOrderQueue {
        order: Order::new_with_id(9, 3, OrderType::Hall, OrderDirection::Down),
    })));
    assert_eq!(*m.get_world_view().get_elevator(1).get_floor(), 2);
    assert!(m.get_world_view().get_hall_order_queue().get_order_queue().contains_key(&9));
}

#[test]
fn a_command_about_an_unknown_elevator_is_not_handled() {
    let m = MemoryState::new(1, 10, 0);
    let e = MemoryEvent::Command(MemoryCommand::ElevatorStatus(ElevatorStatusCommand::SetFloor {
        elevator_id: 5,
        floor: 2,
    }));
    assert!(!m.can_handle_event(&e));
}

#[test]
fn silent_peers_are_marked_dead_and_come_back_alive() {
    let mut m = MemoryState::new(1, 10, 0);
    let mut b = WorldView::new(2, 20);
    let p = peer_picture(&m, &mut b);
    handle(&mut m, MemoryEvent::WorldViewReceived { world_view: p, now_ms: 1000 });
    let p = peer_picture(&m, &mut b);
    handle(&mut m, MemoryEvent::WorldViewReceived { world_view: p, now_ms: 1000 });
    assert_eq!(*m.get_world_view().get_elevator(2).get_dead_or_alive(), DeadOrAlive::Alive);

    handle(&mut m, MemoryEvent::LivenessTick { now_ms: 1000 + PEER_TIMEOUT_MS });
    assert_eq!(*m.get_world_view().get_elevator(2).get_dead_or_alive(), DeadOrAlive::Alive);
    handle(&mut m, MemoryEvent::LivenessTick { now_ms: 1001 + PEER_TIMEOUT_MS });
    assert_eq!(*m.get_world_view().get_elevator(2).get_dead_or_alive(), DeadOrAlive::Dead);
    assert_eq!(*m.get_world_view().get_elevator(1).get_dead_or_alive(), DeadOrAlive::Alive);

    let p = peer_picture(&m, &mut b);
    handle(&mut m, MemoryEvent::WorldViewReceived { world_view: p, now_ms: 9000 });
    assert_eq!(*m.get_world_view().get_elevator(2).get_dead_or_alive(), DeadOrAlive::Alive);
}

#[test]
fn own_elevator_is_never_timed_out() {
    let mut m = MemoryState::new(1, 10, 0);
    handle(&mut m, MemoryEvent::LivenessTick { now_ms: 1_000_000 });
    assert_eq!(*m.get_world_view().get_elevator(1).get_dead_or_alive(), DeadOrAlive::Alive);
}

#[test]
fn cleanup_tick_removes_pending_orders() {
    let mut m = MemoryState::new(1, 10, 0);
    let done = Order::from_parts(4, 0, OrderType::Hall, OrderDirection::Up, OrderStatus::ReadyForDeletion, vec![1]);
    handle(&mut m, MemoryEvent::Command(MemoryCommand::HallOrderQueue(HallOrderQueueCommand::AddToHallOrderQueue {
        order: done,
    })));
    assert!(m.alive_count_fits());
    m.maintain_order_statuses();
    assert!(!m.get_world_view().get_hall_order_queue().get_order_queue().contains_key(&4));
    assert_eq!(*m.get_world_view().get_hall_order_queue().get_pending_cleanup(), vec![4]);
    handle(&mut m, MemoryEvent::CleanupTick);
    assert!(m.get_world_view().get_hall_order_queue().get_pending_cleanup().is_empty());
}
