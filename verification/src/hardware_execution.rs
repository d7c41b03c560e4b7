use std::collections::VecDeque;
use vstd::prelude::*;

use crate::memory::elevator::{
    order_views, Behaviour, DeadOrAlive, Elevator, ElevatorDirection, ElevatorView, Obstruction,
};
use crate::memory::orders::{Order, OrderDirection, OrderStatus, OrderType, OrderView};
use crate::memory::world_view::{ElevatorStatusCommand, HallOrderQueueCommand, MemoryCommand};

verus! {

/// Button number of a hall call upwards.
pub const HALL_UP: u8 = 0;

/// Button number of a hall call downwards.
pub const HALL_DOWN: u8 = 1;

/// Button number of a cab call.
pub const CAB: u8 = 2;

/// Motor command: down.
pub const DIRN_DOWN: u8 = 255;

/// Motor command: stop.
pub const DIRN_STOP: u8 = 0;

/// Motor command: up.
pub const DIRN_UP: u8 = 1;

/// How long the door stays open, in milliseconds.
pub const DOOR_OPEN_MS: u64 = 3000;

/// How long a trip to one floor may take, in milliseconds, before the
/// elevator counts itself as dead.
pub const TRAVEL_TIMEOUT_MS: u64 = 10000;

/// Something for the hardware thread to do.
#[derive(Debug)]
pub enum HardwareAction {
    /// Switch the light of button `call` at `floor`.
    CallButtonLight { floor: u8, call: u8, on: bool },
    FloorIndicator(u8),
    /// Drive the motor (`DIRN_UP`, `DIRN_DOWN` or `DIRN_STOP`).
    MotorDirection(u8),
    DoorLight(bool),
    /// Ask the memory thread for a change.
    Send(MemoryCommand),
}

/// What the hardware thread remembers between ticks. Times are milliseconds
/// on a clock that does not go back.
#[derive(Debug)]
pub struct HardwareExecutionState {
    /// While the door is open: when it may close.
    pub door_open_until: Option<u64>,
    /// A hall direction still to be cleared once the door has been open.
    pub direction_to_clear_after_wait: Option<OrderDirection>,
    /// The floor the car is travelling to.
    pub travel_target_floor: Option<u8>,
    /// When the car set off for that floor.
    pub travel_start_time: Option<u64>,
}

impl HardwareExecutionState {
    /// Door closed, nothing pending, not travelling.
    pub fn new() -> (s: Self)
        ensures
            s.door_open_until is None,
            s.direction_to_clear_after_wait is None,
            s.travel_target_floor is None,
            s.travel_start_time is None,
    {
        Self {
            door_open_until: None,
            direction_to_clear_after_wait: None,
            travel_target_floor: None,
            travel_start_time: None,
        }
    }
}

/// Distance between two floors.
pub open spec fn floor_distance(a: u8, b: u8) -> int {
    if a >= b {
        a - b
    } else {
        b - a
    }
}

/// The floor of the first order nearest to `current`, or `current` when
/// there is no order.
pub open spec fn nearest_floor(orders: Seq<OrderView>, current: u8) -> u8
    decreases orders.len(),
{
    if orders.len() == 0 {
        current
    } else if orders.len() == 1 {
        orders[0].floor
    } else {
        let best = nearest_floor(orders.drop_last(), current);
        if floor_distance(orders.last().floor, current) < floor_distance(best, current) {
            orders.last().floor
        } else {
            best
        }
    }
}

/// The nearest order's floor is one of the orders' floors, and no order is
/// nearer.
pub proof fn lemma_nearest_floor(orders: Seq<OrderView>, current: u8)
    requires
        orders.len() > 0,
    ensures
        exists|i: int| 0 <= i < orders.len() && orders[i].floor == nearest_floor(orders, current),
        forall|i: int|
            0 <= i < orders.len() ==> floor_distance(nearest_floor(orders, current), current)
                <= floor_distance(#[trigger] orders[i].floor, current),
    decreases orders.len(),
{
    if orders.len() > 1 {
        let d = orders.drop_last();
        lemma_nearest_floor(d, current);
        let w = choose|i: int| 0 <= i < d.len() && d[i].floor == nearest_floor(d, current);
        assert(orders[w] == d[w]);
        if floor_distance(orders.last().floor, current) < floor_distance(nearest_floor(d, current), current) {
            assert(orders[orders.len() - 1].floor == nearest_floor(orders, current));
        } else {
            assert(orders[w].floor == nearest_floor(orders, current));
        }
        assert forall|i: int| 0 <= i < orders.len() implies floor_distance(nearest_floor(orders, current), current)
            <= floor_distance(#[trigger] orders[i].floor, current) by {
            if i < d.len() {
                assert(orders[i] == d[i]);
            }
        }
    } else {
        assert(orders[0].floor == nearest_floor(orders, current));
    }
}

/// The floor to head for: that of the first order nearest to
/// `current_floor`, or `current_floor` itself when there is no order.
pub fn choose_next_floor(current_floor: u8, orders: &Vec<Order>) -> (floor: u8)
    ensures
        floor == nearest_floor(order_views(orders@), current_floor),
{
    let ghost v = order_views(orders@);
    if orders.len() == 0 {
        return current_floor;
    }
    let mut best: u8 = *orders[0].get_floor();
    let mut best_distance: u8 = if best >= current_floor { best - current_floor } else { current_floor - best };
    let mut i: usize = 1;
    proof {
        assert(v.take(1).len() == 1);
        assert(v.take(1)[0] == v[0]);
    }
    while i < orders.len()
        invariant
            1 <= i <= orders.len(),
            v == order_views(orders@),
            best == nearest_floor(v.take(i as int), current_floor),
            best_distance == floor_distance(best, current_floor),
        decreases orders.len() - i,
    {
        let f = *orders[i].get_floor();
        let d: u8 = if f >= current_floor { f - current_floor } else { current_floor - f };
        proof {
            assert(v.take(i + 1).drop_last() =~= v.take(i as int));
            assert(v.take(i + 1).last() == v[i as int]);
        }
        if d < best_distance {
            best = f;
            best_distance = d;
        }
        i += 1;
    }
    assert(v.take(orders.len() as int) =~= v);
    best
}

/// Whether some order is at `floor` going `direction`.
pub open spec fn has_direction_at(orders: Seq<OrderView>, floor: u8, direction: OrderDirection) -> bool {
    exists|i: int| 0 <= i < orders.len() && #[trigger] orders[i].floor == floor && orders[i].direction == direction
}

/// Whether some order is above `floor`.
pub open spec fn has_above(orders: Seq<OrderView>, floor: u8) -> bool {
    exists|i: int| 0 <= i < orders.len() && #[trigger] orders[i].floor > floor
}

/// Whether some order is below `floor`.
pub open spec fn has_below(orders: Seq<OrderView>, floor: u8) -> bool {
    exists|i: int| 0 <= i < orders.len() && #[trigger] orders[i].floor < floor
}

/// The hall directions to clear on stopping at `floor`: the one to clear
/// now, and one to clear after the door has been open. With calls both ways
/// here, the way on is cleared first: up when there are orders above, down
/// when there are orders below, else along the car's direction (up when it
/// stands still), followed by the other way.
pub open spec fn directions_to_clear(
    direction: ElevatorDirection,
    hall: Seq<OrderView>,
    all: Seq<OrderView>,
    floor: u8,
) -> (Option<OrderDirection>, Option<OrderDirection>) {
    let up = has_direction_at(hall, floor, OrderDirection::Up);
    let down = has_direction_at(hall, floor, OrderDirection::Down);
    if up && down {
        if has_above(all, floor) {
            (Some(OrderDirection::Up), None)
        } else if has_below(all, floor) {
            (Some(OrderDirection::Down), None)
        } else if direction == ElevatorDirection::Down {
            (Some(OrderDirection::Down), Some(OrderDirection::Up))
        } else {
            (Some(OrderDirection::Up), Some(OrderDirection::Down))
        }
    } else if up {
        (Some(OrderDirection::Up), None)
    } else if down {
        (Some(OrderDirection::Down), None)
    } else {
        (None, None)
    }
}

fn any_direction_at(orders: &Vec<Order>, floor: u8, direction: OrderDirection) -> (found: bool)
    ensures
        found == has_direction_at(order_views(orders@), floor, direction),
{
    let ghost v = order_views(orders@);
    let mut i: usize = 0;
    while i < orders.len()
        invariant
            i <= orders.len(),
            v == order_views(orders@),
            forall|j: int| 0 <= j < i ==> !(#[trigger] v[j].floor == floor && v[j].direction == direction),
        decreases orders.len() - i,
    {
        if *orders[i].get_floor() == floor && *orders[i].get_direction() == direction {
            assert(v[i as int].floor == floor);
            return true;
        }
        i += 1;
    }
    false
}

fn any_above(orders: &Vec<Order>, floor: u8) -> (found: bool)
    ensures
        found == has_above(order_views(orders@), floor),
{
    let ghost v = order_views(orders@);
    let mut i: usize = 0;
    while i < orders.len()
        invariant
            i <= orders.len(),
            v == order_views(orders@),
            forall|j: int| 0 <= j < i ==> !(#[trigger] v[j].floor > floor),
        decreases orders.len() - i,
    {
        if *orders[i].get_floor() > floor {
            assert(v[i as int].floor > floor);
            return true;
        }
        i += 1;
    }
    false
}

fn any_below(orders: &Vec<Order>, floor: u8) -> (found: bool)
    ensures
        found == has_below(order_views(orders@), floor),
{
    let ghost v = order_views(orders@);
    let mut i: usize = 0;
    while i < orders.len()
        invariant
            i <= orders.len(),
            v == order_views(orders@),
            forall|j: int| 0 <= j < i ==> !(#[trigger] v[j].floor < floor),
        decreases orders.len() - i,
    {
        if *orders[i].get_floor() < floor {
            assert(v[i as int].floor < floor);
            return true;
        }
        i += 1;
    }
    false
}

/// The hall directions to clear on stopping at `current_floor` (see
/// `directions_to_clear`).
pub fn choose_hall_directions_to_clear(
    elevator_state: &Elevator,
    assigned_hall_orders: &Vec<Order>,
    all_orders: &Vec<Order>,
    current_floor: u8,
) -> (r: (Option<OrderDirection>, Option<OrderDirection>))
    ensures
        r == directions_to_clear(
            elevator_state@.direction,
            order_views(assigned_hall_orders@),
            order_views(all_orders@),
            current_floor,
        ),
{
    let hall_up_at_floor = any_direction_at(assigned_hall_orders, current_floor, OrderDirection::Up);
    let hall_down_at_floor = any_direction_at(assigned_hall_orders, current_floor, OrderDirection::Down);
    let orders_above = any_above(all_orders, current_floor);
    let orders_below = any_below(all_orders, current_floor);
    match (hall_up_at_floor, hall_down_at_floor) {
        (true, true) => {
            if orders_above {
                return (Some(OrderDirection::Up), None);
            }
            if orders_below {
                return (Some(OrderDirection::Down), None);
            }
            match elevator_state.get_direction() {
                ElevatorDirection::Down => (Some(OrderDirection::Down), Some(OrderDirection::Up)),
                ElevatorDirection::Up => (Some(OrderDirection::Up), Some(OrderDirection::Down)),
                ElevatorDirection::Stop => (Some(OrderDirection::Up), Some(OrderDirection::Down)),
            }
        },
        (true, false) => (Some(OrderDirection::Up), None),
        (false, true) => (Some(OrderDirection::Down), None),
        (false, false) => (None, None),
    }
}

/// Whether an order still has to be served: neither completed nor ready for
/// deletion.
pub open spec fn is_open(o: OrderView) -> bool {
    o.order_status != OrderStatus::Completed && o.order_status != OrderStatus::ReadyForDeletion
}

/// `is_open`, as a function value.
pub open spec fn open_fn() -> spec_fn(OrderView) -> bool {
    |o: OrderView| is_open(o)
}

/// Whether the cab light at `floor` is on: an open cab order is there.
pub open spec fn cab_light_on(cab: Seq<OrderView>, floor: u8) -> bool {
    exists|i: int|
        0 <= i < cab.len() && #[trigger] cab[i].floor == floor && cab[i].order_type == OrderType::Cab
            && is_open(cab[i])
}

/// Whether the hall light at `floor` for `direction` is on: a confirmed hall
/// order for it is among the assigned ones.
pub open spec fn hall_light_on(hall: Seq<OrderView>, floor: u8, direction: OrderDirection) -> bool {
    exists|i: int|
        0 <= i < hall.len() && #[trigger] hall[i].floor == floor && hall[i].order_type
            == OrderType::Hall && hall[i].direction == direction && hall[i].order_status
            == OrderStatus::Confirmed
}

/// The light commands for the first `n` floors: per floor, the cab, hall-up
/// and hall-down lights.
pub open spec fn light_actions(cab: Seq<OrderView>, hall: Seq<OrderView>, n: nat) -> Seq<HardwareAction>
    decreases n,
{
    if n == 0 {
        Seq::empty()
    } else {
        let f = (n - 1) as u8;
        light_actions(cab, hall, (n - 1) as nat) + seq![
            HardwareAction::CallButtonLight { floor: f, call: CAB, on: cab_light_on(cab, f) },
            HardwareAction::CallButtonLight {
                floor: f,
                call: HALL_UP,
                on: hall_light_on(hall, f, OrderDirection::Up),
            },
            HardwareAction::CallButtonLight {
                floor: f,
                call: HALL_DOWN,
                on: hall_light_on(hall, f, OrderDirection::Down),
            },
        ]
    }
}

fn cab_light(cab: &VecDeque<Order>, floor: u8) -> (on: bool)
    ensures
        on == cab_light_on(order_views(cab@), floor),
{
    let ghost v = order_views(cab@);
    let mut i: usize = 0;
    while i < cab.len()
        invariant
            i <= cab.len(),
            v == order_views(cab@),
            forall|j: int|
                0 <= j < i ==> !(#[trigger] v[j].floor == floor && v[j].order_type == OrderType::Cab
                    && is_open(v[j])),
        decreases cab.len() - i,
    {
        let o = &cab[i];
        if *o.get_floor() == floor && *o.get_order_type() == OrderType::Cab
            && *o.get_order_status() != OrderStatus::Completed
            && *o.get_order_status() != OrderStatus::ReadyForDeletion {
            assert(v[i as int].floor == floor);
            return true;
        }
        i += 1;
    }
    false
}

fn hall_light(hall: &Vec<Order>, floor: u8, direction: OrderDirection) -> (on: bool)
    ensures
        on == hall_light_on(order_views(hall@), floor, direction),
{
    let ghost v = order_views(hall@);
    let mut i: usize = 0;
    while i < hall.len()
        invariant
            i <= hall.len(),
            v == order_views(hall@),
            forall|j: int|
                0 <= j < i ==> !(#[trigger] v[j].floor == floor && v[j].order_type == OrderType::Hall
                    && v[j].direction == direction && v[j].order_status == OrderStatus::Confirmed),
        decreases hall.len() - i,
    {
        let o = &hall[i];
        if *o.get_floor() == floor && *o.get_order_type() == OrderType::Hall
            && *o.get_direction() == direction && *o.get_order_status() == OrderStatus::Confirmed {
            assert(v[i as int].floor == floor);
            return true;
        }
        i += 1;
    }
    false
}

/// The light commands for the floors below `num_floors` (see
/// `light_actions`).
pub fn update_lights(cab_orders: &VecDeque<Order>, hall_orders: &Vec<Order>, num_floors: u8) -> (actions: Vec<HardwareAction>)
    ensures
        actions@ == light_actions(order_views(cab_orders@), order_views(hall_orders@), num_floors as nat),
{
    let ghost cab = order_views(cab_orders@);
    let ghost hall = order_views(hall_orders@);
    let mut actions: Vec<HardwareAction> = Vec::new();
    let mut floor: u8 = 0;
    while floor < num_floors
        invariant
            floor <= num_floors,
            cab == order_views(cab_orders@),
            hall == order_views(hall_orders@),
            actions@ == light_actions(cab, hall, floor as nat),
        decreases num_floors - floor,
    {
        let cab_on = cab_light(cab_orders, floor);
        let hall_up_on = hall_light(hall_orders, floor, OrderDirection::Up);
        let hall_down_on = hall_light(hall_orders, floor, OrderDirection::Down);
        actions.push(HardwareAction::CallButtonLight { floor, call: CAB, on: cab_on });
        actions.push(HardwareAction::CallButtonLight { floor, call: HALL_UP, on: hall_up_on });
        actions.push(HardwareAction::CallButtonLight { floor, call: HALL_DOWN, on: hall_down_on });
        assert(actions@ =~= light_actions(cab, hall, (floor + 1) as nat));
        floor += 1;
    }
    actions
}

/// Whether a cab order is at `floor`, as a function value.
pub open spec fn at_floor_fn(floor: u8) -> spec_fn(OrderView) -> bool {
    |o: OrderView| o.floor == floor
}

/// The command that marks a cab order of this elevator completed.
pub open spec fn cab_done_fn(my_id: u16) -> spec_fn(OrderView) -> HardwareAction {
    |o: OrderView|
        HardwareAction::Send(
            MemoryCommand::ElevatorStatus(
                ElevatorStatusCommand::SetCabOrderStatus {
                    elevator_id: my_id,
                    order_id: o.order_id,
                    status: OrderStatus::Completed,
                },
            ),
        )
}

/// Whether a hall order is at `floor` going the given direction (never,
/// without a direction), as a function value.
pub open spec fn hall_clear_fn(floor: u8, direction: Option<OrderDirection>) -> spec_fn(OrderView) -> bool {
    |o: OrderView| o.floor == floor && direction == Some(o.direction)
}

/// The command that marks a hall order completed.
pub open spec fn hall_done_fn() -> spec_fn(OrderView) -> HardwareAction {
    |o: OrderView|
        HardwareAction::Send(
            MemoryCommand::HallOrderQueue(
                HallOrderQueueCommand::SetHallOrderStatus {
                    order_id: o.order_id,
                    status: OrderStatus::Completed,
                },
            ),
        )
}

/// The commands marking completed, in order, every hall order at `floor`
/// going `direction`.
pub open spec fn served_hall_actions(hall: Seq<OrderView>, floor: u8, direction: Option<OrderDirection>) -> Seq<HardwareAction> {
    hall.filter(hall_clear_fn(floor, direction)).map_values(hall_done_fn())
}

/// The commands marking completed, in order, every cab order at `floor`.
pub open spec fn served_cab_actions(cab: Seq<OrderView>, floor: u8, my_id: u16) -> Seq<HardwareAction> {
    cab.filter(at_floor_fn(floor)).map_values(cab_done_fn(my_id))
}

fn mark_served_hall_orders(
    assigned_hall_orders: &Vec<Order>,
    current_floor: u8,
    hall_direction: Option<OrderDirection>,
    actions: &mut Vec<HardwareAction>,
)
    ensures
        final(actions)@ == old(actions)@ + served_hall_actions(
            order_views(assigned_hall_orders@),
            current_floor,
            hall_direction,
        ),
{
    let ghost v = order_views(assigned_hall_orders@);
    let ghost start = actions@;
    let mut i: usize = 0;
    while i < assigned_hall_orders.len()
        invariant
            i <= assigned_hall_orders.len(),
            v == order_views(assigned_hall_orders@),
            actions@ == start + v.take(i as int).filter(hall_clear_fn(current_floor, hall_direction)).map_values(hall_done_fn()),
        decreases assigned_hall_orders.len() - i,
    {
        let o = &assigned_hall_orders[i];
        proof {
            assert(v.take(i + 1) =~= v.take(i as int).push(o@));
            v.take(i as int).lemma_filter_push(o@, hall_clear_fn(current_floor, hall_direction));
        }
        let matches_direction = match hall_direction {
            Some(direction) => *o.get_direction() == direction,
            None => false,
        };
        if *o.get_floor() == current_floor && matches_direction {
            let ghost before = actions@;
            actions.push(
                HardwareAction::Send(
                    MemoryCommand::HallOrderQueue(
                        HallOrderQueueCommand::SetHallOrderStatus {
                            order_id: *o.get_order_id(),
                            status: OrderStatus::Completed,
                        },
                    ),
                ),
            );
            proof {
                let f = v.take(i as int).filter(hall_clear_fn(current_floor, hall_direction));
                assert(f.push(o@).map_values(hall_done_fn()) =~= f.map_values(hall_done_fn()).push(hall_done_fn()(o@)));
                assert(actions@ =~= start + f.push(o@).map_values(hall_done_fn()));
            }
        }
        i += 1;
    }
    assert(v.take(assigned_hall_orders.len() as int) =~= v);
}

/// The commands marking completed every cab order of this elevator at
/// `current_floor`, then every assigned hall order there going
/// `hall_direction`.
pub fn mark_served_orders(
    elevator_state: &Elevator,
    assigned_hall_orders: &Vec<Order>,
    current_floor: u8,
    hall_direction: Option<OrderDirection>,
    my_elevator_id: u16,
) -> (actions: Vec<HardwareAction>)
    ensures
        actions@ == served_cab_actions(elevator_state@.cab_orders, current_floor, my_elevator_id)
            + served_hall_actions(order_views(assigned_hall_orders@), current_floor, hall_direction),
{
    let cab = elevator_state.get_cab_orders();
    let ghost v = order_views(cab@);
    let mut actions: Vec<HardwareAction> = Vec::new();
    let mut i: usize = 0;
    while i < cab.len()
        invariant
            i <= cab.len(),
            v == order_views(cab@),
            actions@ == v.take(i as int).filter(at_floor_fn(current_floor)).map_values(cab_done_fn(my_elevator_id)),
        decreases cab.len() - i,
    {
        let o = &cab[i];
        proof {
            assert(v.take(i + 1) =~= v.take(i as int).push(o@));
            v.take(i as int).lemma_filter_push(o@, at_floor_fn(current_floor));
        }
        if *o.get_floor() == current_floor {
            actions.push(
                HardwareAction::Send(
                    MemoryCommand::ElevatorStatus(
                        ElevatorStatusCommand::SetCabOrderStatus {
                            elevator_id: my_elevator_id,
                            order_id: *o.get_order_id(),
                            status: OrderStatus::Completed,
                        },
                    ),
                ),
            );
            proof {
                let f = v.take(i as int).filter(at_floor_fn(current_floor));
                assert(f.push(o@).map_values(cab_done_fn(my_elevator_id)) =~= f.map_values(cab_done_fn(my_elevator_id)).push(cab_done_fn(my_elevator_id)(o@)));
            }
        }
        i += 1;
    }
    assert(v.take(cab.len() as int) =~= v);
    mark_served_hall_orders(assigned_hall_orders, current_floor, hall_direction, &mut actions);
    actions
}

/// The command that reports a new behaviour, when it differs from the
/// recorded one.
pub open spec fn behaviour_update(e: ElevatorView, behaviour: Behaviour, my_id: u16) -> Seq<HardwareAction> {
    if e.behaviour != behaviour {
        seq![
            HardwareAction::Send(
                MemoryCommand::ElevatorStatus(
                    ElevatorStatusCommand::SetBehaviour { elevator_id: my_id, behavior: behaviour },
                ),
            ),
        ]
    } else {
        Seq::empty()
    }
}

/// The command that reports a new direction, when it differs from the
/// recorded one.
pub open spec fn direction_update(e: ElevatorView, direction: ElevatorDirection, my_id: u16) -> Seq<HardwareAction> {
    if e.direction != direction {
        seq![
            HardwareAction::Send(
                MemoryCommand::ElevatorStatus(
                    ElevatorStatusCommand::SetDirection { elevator_id: my_id, dir: direction },
                ),
            ),
        ]
    } else {
        Seq::empty()
    }
}

/// The command that reports a new liveness, when it differs from the
/// recorded one.
pub open spec fn liveness_update(e: ElevatorView, dead_or_alive: DeadOrAlive, my_id: u16) -> Seq<HardwareAction> {
    if e.dead_or_alive != dead_or_alive {
        seq![
            HardwareAction::Send(
                MemoryCommand::ElevatorStatus(
                    ElevatorStatusCommand::SetDeadOrAlive { elevator_id: my_id, dead_or_alive },
                ),
            ),
        ]
    } else {
        Seq::empty()
    }
}

fn set_behaviour_if_changed(actions: &mut Vec<HardwareAction>, my_elevator_id: u16, elevator_state: &Elevator, behaviour: Behaviour)
    ensures
        final(actions)@ == old(actions)@ + behaviour_update(elevator_state@, behaviour, my_elevator_id),
{
    if *elevator_state.get_behaviour() != behaviour {
        actions.push(
            HardwareAction::Send(
                MemoryCommand::ElevatorStatus(
                    ElevatorStatusCommand::SetBehaviour { elevator_id: my_elevator_id, behavior: behaviour },
                ),
            ),
        );
    }
    assert(actions@ =~= old(actions)@ + behaviour_update(elevator_state@, behaviour, my_elevator_id));
}

fn set_direction_if_changed(actions: &mut Vec<HardwareAction>, my_elevator_id: u16, elevator_state: &Elevator, direction: ElevatorDirection)
    ensures
        final(actions)@ == old(actions)@ + direction_update(elevator_state@, direction, my_elevator_id),
{
    if *elevator_state.get_direction() != direction {
        actions.push(
            HardwareAction::Send(
                MemoryCommand::ElevatorStatus(
                    ElevatorStatusCommand::SetDirection { elevator_id: my_elevator_id, dir: direction },
                ),
            ),
        );
    }
    assert(actions@ =~= old(actions)@ + direction_update(elevator_state@, direction, my_elevator_id));
}

fn set_dead_or_alive_if_changed(actions: &mut Vec<HardwareAction>, my_elevator_id: u16, elevator_state: &Elevator, dead_or_alive: DeadOrAlive)
    ensures
        final(actions)@ == old(actions)@ + liveness_update(elevator_state@, dead_or_alive, my_elevator_id),
{
    if *elevator_state.get_dead_or_alive() != dead_or_alive {
        actions.push(
            HardwareAction::Send(
                MemoryCommand::ElevatorStatus(
                    ElevatorStatusCommand::SetDeadOrAlive { elevator_id: my_elevator_id, dead_or_alive },
                ),
            ),
        );
    }
    assert(actions@ =~= old(actions)@ + liveness_update(elevator_state@, dead_or_alive, my_elevator_id));
}

/// The open orders of this elevator: its open cab orders, then its open
/// assigned hall orders.
pub open spec fn open_orders(cab: Seq<OrderView>, hall: Seq<OrderView>) -> Seq<OrderView> {
    cab.filter(open_fn()) + hall.filter(open_fn())
}

fn push_open_orders(target: &mut Vec<Order>, source: &Vec<Order>)
    ensures
        order_views(final(target)@) == order_views(old(target)@) + order_views(source@).filter(open_fn()),
{
    let ghost v = order_views(source@);
    let ghost start = order_views(target@);
    let mut i: usize = 0;
    while i < source.len()
        invariant
            i <= source.len(),
            v == order_views(source@),
            order_views(target@) == start + v.take(i as int).filter(open_fn()),
        decreases source.len() - i,
    {
        let o = &source[i];
        proof {
            assert(v.take(i + 1) =~= v.take(i as int).push(o@));
            v.take(i as int).lemma_filter_push(o@, open_fn());
        }
        if *o.get_order_status() != OrderStatus::Completed && *o.get_order_status() != OrderStatus::ReadyForDeletion {
            let c = o.clone();
            proof {
                crate::memory::elevator::lemma_order_views_push(target@, c);
            }
            target.push(c);
            assert(order_views(target@) =~= start + v.take(i + 1).filter(open_fn()));
        }
        i += 1;
    }
    assert(v.take(source.len() as int) =~= v);
}

fn collect_open_orders(cab: &VecDeque<Order>, hall: &Vec<Order>) -> (all: Vec<Order>)
    ensures
        order_views(all@) == open_orders(order_views(cab@), order_views(hall@)),
{
    let ghost v = order_views(cab@);
    let mut all: Vec<Order> = Vec::new();
    let mut i: usize = 0;
    while i < cab.len()
        invariant
            i <= cab.len(),
            v == order_views(cab@),
            order_views(all@) == v.take(i as int).filter(open_fn()),
        decreases cab.len() - i,
    {
        let o = &cab[i];
        proof {
            assert(v.take(i + 1) =~= v.take(i as int).push(o@));
            v.take(i as int).lemma_filter_push(o@, open_fn());
        }
        if *o.get_order_status() != OrderStatus::Completed && *o.get_order_status() != OrderStatus::ReadyForDeletion {
            let c = o.clone();
            proof {
                crate::memory::elevator::lemma_order_views_push(all@, c);
            }
            all.push(c);
        }
        i += 1;
    }
    assert(v.take(cab.len() as int) =~= v);
    push_open_orders(&mut all, hall);
    all
}

/// `now` plus the door-open time, or the largest time when that overflows.
pub open spec fn door_deadline(now: u64) -> u64 {
    if now <= u64::MAX - DOOR_OPEN_MS {
        (now + DOOR_OPEN_MS) as u64
    } else {
        u64::MAX
    }
}

fn door_deadline_from(now: u64) -> (t: u64)
    ensures
        t == door_deadline(now),
{
    if now <= u64::MAX - DOOR_OPEN_MS {
        now + DOOR_OPEN_MS
    } else {
        u64::MAX
    }
}

/// Milliseconds from `then` to `now`, zero when `now` is earlier.
pub open spec fn since(now: u64, then: u64) -> int {
    if now >= then {
        now - then
    } else {
        0
    }
}

/// A dead elevator stops, closes the door and forgets what it was doing.
pub open spec fn dead_branch(e: ElevatorView, my_id: u16) -> (HardwareExecutionState, Seq<HardwareAction>) {
    (
        HardwareExecutionState {
            door_open_until: None,
            direction_to_clear_after_wait: None,
            travel_target_floor: None,
            travel_start_time: None,
        },
        seq![HardwareAction::MotorDirection(DIRN_STOP), HardwareAction::DoorLight(false)]
            + behaviour_update(e, Behaviour::Idle, my_id) + direction_update(
            e,
            ElevatorDirection::Stop,
            my_id,
        ),
    )
}

/// With the door open: keep it open; an obstruction restarts the wait; when
/// the wait is over, clear the hall direction left for afterwards (and wait
/// again), or close the door.
pub open spec fn door_branch(
    e: ElevatorView,
    hall: Seq<OrderView>,
    my_id: u16,
    st: HardwareExecutionState,
    now: u64,
) -> (HardwareExecutionState, Seq<HardwareAction>) {
    let until = st.door_open_until->0;
    let common = seq![HardwareAction::MotorDirection(DIRN_STOP), HardwareAction::DoorLight(true)]
        + behaviour_update(e, Behaviour::DoorOpen, my_id) + direction_update(
        e,
        ElevatorDirection::Stop,
        my_id,
    );
    let st1 = HardwareExecutionState { travel_target_floor: None, travel_start_time: None, ..st };
    if e.obstruction == Obstruction::Obstructed {
        (HardwareExecutionState { door_open_until: Some(door_deadline(now)), ..st1 }, common)
    } else if now >= until {
        match st.direction_to_clear_after_wait {
            Some(d) => (
                HardwareExecutionState {
                    door_open_until: Some(door_deadline(now)),
                    direction_to_clear_after_wait: None,
                    ..st1
                },
                common + served_hall_actions(hall, e.floor, Some(d)),
            ),
            None => (
                HardwareExecutionState { door_open_until: None, ..st1 },
                common.push(HardwareAction::DoorLight(false)),
            ),
        }
    } else {
        (st1, common)
    }
}

/// Arrived at the nearest order: open the door, serve the cab orders here
/// and the first hall direction, and leave the second for later.
pub open spec fn arrive_branch(
    e: ElevatorView,
    hall: Seq<OrderView>,
    my_id: u16,
    now: u64,
) -> (HardwareExecutionState, Seq<HardwareAction>) {
    let all = open_orders(e.cab_orders, hall);
    let dirs = directions_to_clear(e.direction, hall, all, e.floor);
    (
        HardwareExecutionState {
            door_open_until: Some(door_deadline(now)),
            direction_to_clear_after_wait: dirs.1,
            travel_target_floor: None,
            travel_start_time: None,
        },
        liveness_update(e, DeadOrAlive::Alive, my_id) + seq![
            HardwareAction::MotorDirection(DIRN_STOP),
            HardwareAction::DoorLight(true),
        ] + behaviour_update(e, Behaviour::DoorOpen, my_id) + direction_update(
            e,
            ElevatorDirection::Stop,
            my_id,
        ) + served_cab_actions(e.cab_orders, e.floor, my_id) + served_hall_actions(hall, e.floor, dirs.0),
    )
}

/// The execution state on setting off, or travelling on, to `target`: no
/// direction left to clear, and the trip timed from now unless it was
/// already going to `target`.
pub open spec fn travel_state(st: HardwareExecutionState, target: u8, now: u64) -> HardwareExecutionState {
    let st1 = HardwareExecutionState { direction_to_clear_after_wait: None, ..st };
    if st1.travel_target_floor != Some(target) {
        HardwareExecutionState { travel_target_floor: Some(target), travel_start_time: Some(now), ..st1 }
    } else {
        st1
    }
}

/// Whether the trip has taken longer than the travel timeout.
pub open spec fn travel_timed_out(st: HardwareExecutionState, now: u64) -> bool {
    st.travel_start_time is Some && since(now, st.travel_start_time->0) > TRAVEL_TIMEOUT_MS
}

/// A trip that took too long: the elevator counts itself as dead and stops.
pub open spec fn timeout_actions(e: ElevatorView, my_id: u16) -> Seq<HardwareAction> {
    liveness_update(e, DeadOrAlive::Dead, my_id) + seq![
        HardwareAction::MotorDirection(DIRN_STOP),
        HardwareAction::DoorLight(false),
    ] + behaviour_update(e, Behaviour::Idle, my_id) + direction_update(e, ElevatorDirection::Stop, my_id)
}

/// The direction towards `target`.
pub open spec fn direction_towards(e: ElevatorView, target: u8) -> ElevatorDirection {
    if target > e.floor {
        ElevatorDirection::Up
    } else {
        ElevatorDirection::Down
    }
}

/// Driving on towards `target`, door closed.
pub open spec fn moving_actions(e: ElevatorView, my_id: u16, target: u8) -> Seq<HardwareAction> {
    let moving = direction_towards(e, target);
    liveness_update(e, DeadOrAlive::Alive, my_id) + behaviour_update(e, Behaviour::Moving, my_id)
        + direction_update(e, moving, my_id) + seq![
        HardwareAction::DoorLight(false),
        HardwareAction::MotorDirection(
            if moving == ElevatorDirection::Up {
                DIRN_UP
            } else {
                DIRN_DOWN
            },
        ),
    ]
}

/// Travelling to `target`: a trip that has taken too long makes the
/// elevator count itself as dead and stop; otherwise it drives on.
pub open spec fn travel_branch(
    e: ElevatorView,
    my_id: u16,
    st: HardwareExecutionState,
    target: u8,
    now: u64,
) -> (HardwareExecutionState, Seq<HardwareAction>) {
    let st2 = travel_state(st, target, now);
    if travel_timed_out(st2, now) {
        (st2, timeout_actions(e, my_id))
    } else {
        (st2, moving_actions(e, my_id, target))
    }
}

/// Without the door open: stand still without open orders, else arrive at
/// or travel to the nearest one.
pub open spec fn order_branch(
    e: ElevatorView,
    hall: Seq<OrderView>,
    my_id: u16,
    st: HardwareExecutionState,
    now: u64,
) -> (HardwareExecutionState, Seq<HardwareAction>) {
    let all = open_orders(e.cab_orders, hall);
    if all.len() == 0 {
        (
            HardwareExecutionState { travel_target_floor: None, travel_start_time: None, ..st },
            seq![HardwareAction::MotorDirection(DIRN_STOP), HardwareAction::DoorLight(false)]
                + behaviour_update(e, Behaviour::Idle, my_id) + direction_update(
                e,
                ElevatorDirection::Stop,
                my_id,
            ),
        )
    } else if nearest_floor(all, e.floor) == e.floor {
        arrive_branch(e, hall, my_id, now)
    } else {
        travel_branch(e, my_id, st, nearest_floor(all, e.floor), now)
    }
}

/// What one tick of the hardware thread does: the new execution state, and
/// the commands in order: the lights, the floor indicator, then what the
/// dead, door-open or order branch says.
pub open spec fn execution_step(
    e: ElevatorView,
    hall: Seq<OrderView>,
    my_id: u16,
    st: HardwareExecutionState,
    num_floors: u8,
    now: u64,
) -> (HardwareExecutionState, Seq<HardwareAction>) {
    let prefix = light_actions(e.cab_orders, hall, num_floors as nat).push(
        HardwareAction::FloorIndicator(e.floor),
    );
    let rest = if e.dead_or_alive == DeadOrAlive::Dead {
        dead_branch(e, my_id)
    } else if st.door_open_until is Some {
        door_branch(e, hall, my_id, st, now)
    } else {
        order_branch(e, hall, my_id, st, now)
    };
    (rest.0, prefix + rest.1)
}

fn run_dead_branch(
    elevator_state: &Elevator,
    my_elevator_id: u16,
    execution_state: &mut HardwareExecutionState,
    actions: &mut Vec<HardwareAction>,
)
    ensures
        *final(execution_state) == dead_branch(elevator_state@, my_elevator_id).0,
        final(actions)@ == old(actions)@ + dead_branch(elevator_state@, my_elevator_id).1,
{
    actions.push(HardwareAction::MotorDirection(DIRN_STOP));
    actions.push(HardwareAction::DoorLight(false));
    execution_state.door_open_until = None;
    execution_state.direction_to_clear_after_wait = None;
    execution_state.travel_target_floor = None;
    execution_state.travel_start_time = None;
    set_behaviour_if_changed(actions, my_elevator_id, elevator_state, Behaviour::Idle);
    set_direction_if_changed(actions, my_elevator_id, elevator_state, ElevatorDirection::Stop);
    assert(actions@ =~= old(actions)@ + dead_branch(elevator_state@, my_elevator_id).1);
}

fn run_door_branch(
    elevator_state: &Elevator,
    assigned_hall_orders: &Vec<Order>,
    my_elevator_id: u16,
    execution_state: &mut HardwareExecutionState,
    now_ms: u64,
    actions: &mut Vec<HardwareAction>,
)
    requires
        old(execution_state).door_open_until is Some,
    ensures
        *final(execution_state) == door_branch(
            elevator_state@,
            order_views(assigned_hall_orders@),
            my_elevator_id,
            *old(execution_state),
            now_ms,
        ).0,
        final(actions)@ == old(actions)@ + door_branch(
            elevator_state@,
            order_views(assigned_hall_orders@),
            my_elevator_id,
            *old(execution_state),
            now_ms,
        ).1,
{
    let ghost e = elevator_state@;
    let ghost hall = order_views(assigned_hall_orders@);
    let door_open_until = execution_state.door_open_until.unwrap();
    actions.push(HardwareAction::MotorDirection(DIRN_STOP));
    actions.push(HardwareAction::DoorLight(true));
    execution_state.travel_target_floor = None;
    execution_state.travel_start_time = None;
    set_behaviour_if_changed(actions, my_elevator_id, elevator_state, Behaviour::DoorOpen);
    set_direction_if_changed(actions, my_elevator_id, elevator_state, ElevatorDirection::Stop);
    assert(actions@ =~= old(actions)@ + (seq![HardwareAction::MotorDirection(DIRN_STOP), HardwareAction::DoorLight(true)]
        + behaviour_update(e, Behaviour::DoorOpen, my_elevator_id) + direction_update(
        e,
        ElevatorDirection::Stop,
        my_elevator_id,
    )));
    if *elevator_state.get_obstruction() == Obstruction::Obstructed {
        execution_state.door_open_until = Some(door_deadline_from(now_ms));
        return;
    }
    if now_ms >= door_open_until {
        let pending = execution_state.direction_to_clear_after_wait;
        execution_state.direction_to_clear_after_wait = None;
        match pending {
            Some(direction) => {
                let ghost before = actions@;
                mark_served_hall_orders(
                    assigned_hall_orders,
                    *elevator_state.get_floor(),
                    Some(direction),
                    actions,
                );
                execution_state.door_open_until = Some(door_deadline_from(now_ms));
                assert(actions@ =~= old(actions)@ + door_branch(e, hall, my_elevator_id, *old(execution_state), now_ms).1);
            },
            None => {
                execution_state.door_open_until = None;
                actions.push(HardwareAction::DoorLight(false));
                assert(actions@ =~= old(actions)@ + door_branch(e, hall, my_elevator_id, *old(execution_state), now_ms).1);
            },
        }
    }
}

fn push_timeout_actions(elevator_state: &Elevator, my_elevator_id: u16, actions: &mut Vec<HardwareAction>)
    ensures
        final(actions)@ == old(actions)@ + timeout_actions(elevator_state@, my_elevator_id),
{
    set_dead_or_alive_if_changed(actions, my_elevator_id, elevator_state, DeadOrAlive::Dead);
    actions.push(HardwareAction::MotorDirection(DIRN_STOP));
    actions.push(HardwareAction::DoorLight(false));
    set_behaviour_if_changed(actions, my_elevator_id, elevator_state, Behaviour::Idle);
    set_direction_if_changed(actions, my_elevator_id, elevator_state, ElevatorDirection::Stop);
    assert(actions@ =~= old(actions)@ + timeout_actions(elevator_state@, my_elevator_id));
}

fn push_moving_actions(elevator_state: &Elevator, my_elevator_id: u16, target_floor: u8, actions: &mut Vec<HardwareAction>)
    ensures
        final(actions)@ == old(actions)@ + moving_actions(elevator_state@, my_elevator_id, target_floor),
{
    let moving_direction: ElevatorDirection = if target_floor > *elevator_state.get_floor() {
        ElevatorDirection::Up
    } else {
        ElevatorDirection::Down
    };
    set_dead_or_alive_if_changed(actions, my_elevator_id, elevator_state, DeadOrAlive::Alive);
    set_behaviour_if_changed(actions, my_elevator_id, elevator_state, Behaviour::Moving);
    set_direction_if_changed(actions, my_elevator_id, elevator_state, moving_direction);
    actions.push(HardwareAction::DoorLight(false));
    match moving_direction {
        ElevatorDirection::Up => actions.push(HardwareAction::MotorDirection(DIRN_UP)),
        ElevatorDirection::Down => actions.push(HardwareAction::MotorDirection(DIRN_DOWN)),
        ElevatorDirection::Stop => actions.push(HardwareAction::MotorDirection(DIRN_STOP)),
    }
    assert(actions@ =~= old(actions)@ + moving_actions(elevator_state@, my_elevator_id, target_floor));
}

fn run_travel_branch(
    elevator_state: &Elevator,
    my_elevator_id: u16,
    execution_state: &mut HardwareExecutionState,
    target_floor: u8,
    now_ms: u64,
    actions: &mut Vec<HardwareAction>,
)
    ensures
        *final(execution_state) == travel_branch(elevator_state@, my_elevator_id, *old(execution_state), target_floor, now_ms).0,
        final(actions)@ == old(actions)@ + travel_branch(elevator_state@, my_elevator_id, *old(execution_state), target_floor, now_ms).1,
{
    execution_state.direction_to_clear_after_wait = None;
    if execution_state.travel_target_floor != Some(target_floor) {
        execution_state.travel_target_floor = Some(target_floor);
        execution_state.travel_start_time = Some(now_ms);
    }
    assert(*execution_state == travel_state(*old(execution_state), target_floor, now_ms));
    let timed_out = match execution_state.travel_start_time {
        Some(travel_start_time) => now_ms >= travel_start_time && now_ms - travel_start_time > TRAVEL_TIMEOUT_MS,
        None => false,
    };
    if timed_out {
        push_timeout_actions(elevator_state, my_elevator_id, actions);
    } else {
        push_moving_actions(elevator_state, my_elevator_id, target_floor, actions);
    }
}

fn run_arrive_branch(
    elevator_state: &Elevator,
    assigned_hall_orders: &Vec<Order>,
    all_orders: &Vec<Order>,
    my_elevator_id: u16,
    execution_state: &mut HardwareExecutionState,
    now_ms: u64,
    actions: &mut Vec<HardwareAction>,
)
    requires
        order_views(all_orders@) == open_orders(elevator_state@.cab_orders, order_views(assigned_hall_orders@)),
    ensures
        *final(execution_state) == arrive_branch(elevator_state@, order_views(assigned_hall_orders@), my_elevator_id, now_ms).0,
        final(actions)@ == old(actions)@ + arrive_branch(elevator_state@, order_views(assigned_hall_orders@), my_elevator_id, now_ms).1,
{
    let ghost e = elevator_state@;
    let ghost hall = order_views(assigned_hall_orders@);
    let current_floor = *elevator_state.get_floor();
    set_dead_or_alive_if_changed(actions, my_elevator_id, elevator_state, DeadOrAlive::Alive);
    execution_state.travel_target_floor = None;
    execution_state.travel_start_time = None;
    actions.push(HardwareAction::MotorDirection(DIRN_STOP));
    actions.push(HardwareAction::DoorLight(true));
    set_behaviour_if_changed(actions, my_elevator_id, elevator_state, Behaviour::DoorOpen);
    set_direction_if_changed(actions, my_elevator_id, elevator_state, ElevatorDirection::Stop);
    let (first_direction_to_clear, second_direction_to_clear) = choose_hall_directions_to_clear(
        elevator_state,
        assigned_hall_orders,
        all_orders,
        current_floor,
    );
    let mut served = mark_served_orders(
        elevator_state,
        assigned_hall_orders,
        current_floor,
        first_direction_to_clear,
        my_elevator_id,
    );
    actions.append(&mut served);
    execution_state.door_open_until = Some(door_deadline_from(now_ms));
    execution_state.direction_to_clear_after_wait = second_direction_to_clear;
    assert(actions@ =~= old(actions)@ + arrive_branch(e, hall, my_elevator_id, now_ms).1);
}

/// One tick of the hardware thread (see `execution_step`): updates the
/// execution state and returns the commands to carry out, in order.
pub fn execute_elevator_state(
    elevator_state: &Elevator,
    assigned_hall_orders: &Vec<Order>,
    my_elevator_id: u16,
    execution_state: &mut HardwareExecutionState,
    num_floors: u8,
    now_ms: u64,
) -> (actions: Vec<HardwareAction>)
    ensures
        (*final(execution_state), actions@) == execution_step(
            elevator_state@,
            order_views(assigned_hall_orders@),
            my_elevator_id,
            *old(execution_state),
            num_floors,
            now_ms,
        ),
{
    let ghost e = elevator_state@;
    let ghost hall = order_views(assigned_hall_orders@);
    let mut actions = update_lights(elevator_state.get_cab_orders(), assigned_hall_orders, num_floors);
    let current_floor: u8 = *elevator_state.get_floor();
    actions.push(HardwareAction::FloorIndicator(current_floor));
    if *elevator_state.get_dead_or_alive() == DeadOrAlive::Dead {
        run_dead_branch(elevator_state, my_elevator_id, execution_state, &mut actions);
    } else if execution_state.door_open_until.is_some() {
        run_door_branch(elevator_state, assigned_hall_orders, my_elevator_id, execution_state, now_ms, &mut actions);
    } else {
        let all_orders = collect_open_orders(elevator_state.get_cab_orders(), assigned_hall_orders);
        if all_orders.len() == 0 {
            actions.push(HardwareAction::MotorDirection(DIRN_STOP));
            actions.push(HardwareAction::DoorLight(false));
            execution_state.travel_target_floor = None;
            execution_state.travel_start_time = None;
            set_behaviour_if_changed(&mut actions, my_elevator_id, elevator_state, Behaviour::Idle);
            set_direction_if_changed(&mut actions, my_elevator_id, elevator_state, ElevatorDirection::Stop);
        } else {
            let target_floor: u8 = choose_next_floor(current_floor, &all_orders);
            if current_floor == target_floor {
                run_arrive_branch(elevator_state, assigned_hall_orders, &all_orders, my_elevator_id, execution_state, now_ms, &mut actions);
            } else {
                run_travel_branch(elevator_state, my_elevator_id, execution_state, target_floor, now_ms, &mut actions);
            }
        }
    }
    assert(actions@ =~= execution_step(e, hall, my_elevator_id, *old(execution_state), num_floors, now_ms).1);
    actions
}

/// What a floor-sensor reading leads to, given the floor reported last: a
/// new floor is reported and becomes the one reported last.
pub fn floor_sensor_update(prev: u8, reading: Option<u8>, my_elevator_id: u16) -> (r: (Option<MemoryCommand>, u8))
    ensures
        match reading {
            Some(floor) => if floor != prev {
                r.0 == Some(
                    MemoryCommand::ElevatorStatus(
                        ElevatorStatusCommand::SetFloor { elevator_id: my_elevator_id, floor },
                    ),
                ) && r.1 == floor
            } else {
                r.0 is None && r.1 == prev
            },
            None => r.0 is None && r.1 == prev,
        },
{
    match reading {
        Some(floor) => {
            if floor != prev {
                (
                    Some(
                        MemoryCommand::ElevatorStatus(
                            ElevatorStatusCommand::SetFloor { elevator_id: my_elevator_id, floor },
                        ),
                    ),
                    floor,
                )
            } else {
                (None, prev)
            }
        },
        None => (None, prev),
    }
}

/// What an obstruction reading leads to, given the state reported last: a
/// change is reported and becomes the state reported last.
pub fn obstruction_update(prev: Obstruction, obstructed: bool, my_elevator_id: u16) -> (r: (Option<MemoryCommand>, Obstruction))
    ensures
        ({
            let now = if obstructed {
                Obstruction::Obstructed
            } else {
                Obstruction::Clear
            };
            if now != prev {
                r.0 == Some(
                    MemoryCommand::ElevatorStatus(
                        ElevatorStatusCommand::SetObstruction { elevator_id: my_elevator_id, obstruction: now },
                    ),
                ) && r.1 == now
            } else {
                r.0 is None && r.1 == prev
            }
        }),
{
    let obstruction = if obstructed {
        Obstruction::Obstructed
    } else {
        Obstruction::Clear
    };
    if obstruction != prev {
        (
            Some(
                MemoryCommand::ElevatorStatus(
                    ElevatorStatusCommand::SetObstruction { elevator_id: my_elevator_id, obstruction },
                ),
            ),
            obstruction,
        )
    } else {
        (None, prev)
    }
}

/// The kind of order a button places: hall up, hall down, or cab (whose
/// direction is not used); other buttons place none.
pub open spec fn button_order_kind(call: u8) -> Option<(OrderType, OrderDirection)> {
    if call == HALL_UP {
        Some((OrderType::Hall, OrderDirection::Up))
    } else if call == HALL_DOWN {
        Some((OrderType::Hall, OrderDirection::Down))
    } else if call == CAB {
        Some((OrderType::Cab, OrderDirection::Down))
    } else {
        None
    }
}

/// Whether `c` adds to the queue of the right kind an unconfirmed order
/// `order_id` of kind `kind` at `floor`, acknowledged only by `my_id`.
pub open spec fn places_order(
    c: MemoryCommand,
    floor: u8,
    kind: (OrderType, OrderDirection),
    my_id: u16,
    order_id: u16,
) -> bool {
    let o = OrderView {
        order_id,
        floor,
        order_type: kind.0,
        direction: kind.1,
        order_status: OrderStatus::Unconfirmed,
        ack_barrier: seq![my_id],
    };
    match c {
        MemoryCommand::ElevatorStatus(ElevatorStatusCommand::AddCabOrder { elevator_id, order }) => {
            kind.0 == OrderType::Cab && elevator_id == my_id && order@ == o
        },
        MemoryCommand::HallOrderQueue(HallOrderQueueCommand::AddToHallOrderQueue { order }) => {
            kind.0 == OrderType::Hall && order@ == o
        },
        _ => false,
    }
}

/// The command that a press of button `call` at `floor` gives, for an
/// order with identifier `order_id`: none unless the button was just pressed
/// (pressed now, not pressed before) and places an order.
pub fn call_button_command(
    floor: u8,
    call: u8,
    pressed: bool,
    prev_pressed: bool,
    my_elevator_id: u16,
    order_id: u16,
) -> (c: Option<MemoryCommand>)
    ensures
        match c {
            Some(c) => pressed && !prev_pressed && button_order_kind(call) is Some && places_order(
                c,
                floor,
                button_order_kind(call)->0,
                my_elevator_id,
                order_id,
            ),
            None => !(pressed && !prev_pressed && button_order_kind(call) is Some),
        },
{
    if !(pressed && prev_pressed != pressed) {
        return None;
    }
    let (order_type, direction) = if call == HALL_UP {
        (OrderType::Hall, OrderDirection::Up)
    } else if call == HALL_DOWN {
        (OrderType::Hall, OrderDirection::Down)
    } else if call == CAB {
        (OrderType::Cab, OrderDirection::Down)
    } else {
        return None;
    };
    let mut order = Order::new_with_id(order_id, floor, order_type, direction);
    order.insert_into_ack_barrier(my_elevator_id);
    assert(order@.ack_barrier =~= seq![my_elevator_id]);
    match order_type {
        OrderType::Cab => Some(
            MemoryCommand::ElevatorStatus(
                ElevatorStatusCommand::AddCabOrder { elevator_id: my_elevator_id, order },
            ),
        ),
        OrderType::Hall => Some(
            MemoryCommand::HallOrderQueue(HallOrderQueueCommand::AddToHallOrderQueue { order }),
        ),
    }
}

/// The command that a press of button `call` at `floor` gives, for a new
/// order with a random identifier (see `call_button_command`).
pub fn call_button_update(
    floor: u8,
    call: u8,
    pressed: bool,
    prev_pressed: bool,
    my_elevator_id: u16,
) -> (c: Option<MemoryCommand>)
    ensures
        match c {
            Some(c) => pressed && !prev_pressed && button_order_kind(call) is Some && exists|id: u16|
                places_order(c, floor, button_order_kind(call)->0, my_elevator_id, id),
            None => !(pressed && !prev_pressed && button_order_kind(call) is Some),
        },
{
    if !(pressed && prev_pressed != pressed) || button_order_kind_exec(call).is_none() {
        return None;
    }
    let probe = Order::new(floor, OrderType::Cab, OrderDirection::Down);
    let order_id = *probe.get_order_id();
    call_button_command(floor, call, pressed, prev_pressed, my_elevator_id, order_id)
}

fn button_order_kind_exec(call: u8) -> (k: Option<(OrderType, OrderDirection)>)
    ensures
        k == button_order_kind(call),
{
    if call == HALL_UP {
        Some((OrderType::Hall, OrderDirection::Up))
    } else if call == HALL_DOWN {
        Some((OrderType::Hall, OrderDirection::Down))
    } else if call == CAB {
        Some((OrderType::Cab, OrderDirection::Down))
    } else {
        None
    }
}

} // verus!
