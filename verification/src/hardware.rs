use std::collections::VecDeque;
use vstd::prelude::*;

use crate::hardware_execution::{since, DIRN_DOWN, DIRN_STOP, DIRN_UP, DOOR_OPEN_MS};
use crate::memory::elevator::order_views;
use crate::memory::orders::{Order, OrderDirection, OrderStatus, OrderType, OrderView};
use crate::memory::world_view::ElevatorStatusCommand;
use crate::message::hardware_msg::{ConvertedCallButton, HardwareData};
use crate::message::memory_msg::MemoryData;
use crate::message::{Message, MessageContent};

verus! {

/// Number of floors served.
pub const FLOOR_COUNT: u8 = 4;

/// Number of floors served, as an index bound.
pub const ELEV_HEIGHT: usize = 4;

/// Which buttons of one floor have a confirmed order behind them.
#[derive(Clone, Copy, Debug, PartialEq, Eq, Structural)]
pub struct FloorDirection {
    pub up: bool,
    pub down: bool,
    pub cab: bool,
}

impl FloorDirection {
    /// A floor with no request.
    pub fn new() -> (r: Self)
        ensures
            r == (FloorDirection { up: false, down: false, cab: false }),
    {
        FloorDirection { up: false, down: false, cab: false }
    }
}

/// What the motor is doing: going up, going down, or standing.
#[derive(Clone, Copy, Debug, PartialEq, Eq, Structural)]
pub enum MotorState {
    Up,
    Down,
    Stop,
}

/// What the hardware loop knows of its car. Times are milliseconds on a
/// clock that does not go back.
#[derive(Clone, Copy, Debug, PartialEq, Eq, Structural)]
pub struct ElevatorData {
    pub current_floor: u8,
    pub obstruction: bool,
    pub stop_button: bool,
    pub motor_direction: MotorState,
    /// The floor the car is heading for.
    pub next_stop: u8,
    /// Whether the door is open.
    pub door_status: bool,
    /// While the door is open: when its three seconds started.
    pub door_timeout: Option<u64>,
}

/// The state of a car that has just been switched on.
pub open spec fn initial_data() -> ElevatorData {
    ElevatorData {
        current_floor: 0,
        obstruction: false,
        stop_button: false,
        motor_direction: MotorState::Up,
        next_stop: 0,
        door_status: false,
        door_timeout: None,
    }
}

impl ElevatorData {
    /// A car at floor 0, door closed, heading up, with nothing to do.
    pub fn new() -> (d: Self)
        ensures
            d == initial_data(),
    {
        ElevatorData {
            current_floor: 0,
            obstruction: false,
            stop_button: false,
            motor_direction: MotorState::Up,
            next_stop: 0,
            door_status: false,
            door_timeout: None,
        }
    }
}

// ---------------------------------------------------------------------------
// Requests from the order list

/// Whether `o` is a confirmed hall order upwards at floor `f`.
pub open spec fn marks_up(o: OrderView, f: int) -> bool {
    &&& o.order_status == OrderStatus::Confirmed
    &&& o.floor == f
    &&& o.order_type == OrderType::Hall
    &&& o.direction == OrderDirection::Up
}

/// Whether `o` is a confirmed hall order downwards at floor `f`.
pub open spec fn marks_down(o: OrderView, f: int) -> bool {
    &&& o.order_status == OrderStatus::Confirmed
    &&& o.floor == f
    &&& o.order_type == OrderType::Hall
    &&& o.direction == OrderDirection::Down
}

/// Whether `o` is a confirmed cab order to floor `f`.
pub open spec fn marks_cab(o: OrderView, f: int) -> bool {
    &&& o.order_status == OrderStatus::Confirmed
    &&& o.floor == f
    &&& o.order_type == OrderType::Cab
}

/// The requests at floor `f`: each button that some confirmed order in
/// `orders` stands behind.
pub open spec fn request_at(orders: Seq<OrderView>, f: int) -> FloorDirection {
    FloorDirection {
        up: exists|i: int| 0 <= i < orders.len() && #[trigger] marks_up(orders[i], f),
        down: exists|i: int| 0 <= i < orders.len() && #[trigger] marks_down(orders[i], f),
        cab: exists|i: int| 0 <= i < orders.len() && #[trigger] marks_cab(orders[i], f),
    }
}

/// The requests at every floor.
pub open spec fn requests_of(orders: Seq<OrderView>) -> Seq<FloorDirection> {
    Seq::new(ELEV_HEIGHT as nat, |f: int| request_at(orders, f))
}

/// Whether every confirmed order in `orders` is for a floor that exists.
pub open spec fn confirmed_floors_valid(orders: Seq<OrderView>) -> bool {
    forall|i: int|
        0 <= i < orders.len() && #[trigger] orders[i].order_status == OrderStatus::Confirmed ==> orders[i].floor
            < FLOOR_COUNT
}

proof fn lemma_request_at_push(s: Seq<OrderView>, o: OrderView, f: int)
    ensures
        request_at(s.push(o), f) == (FloorDirection {
            up: request_at(s, f).up || marks_up(o, f),
            down: request_at(s, f).down || marks_down(o, f),
            cab: request_at(s, f).cab || marks_cab(o, f),
        }),
{
    let t = s.push(o);
    assert(t[s.len() as int] == o);
    if request_at(s, f).up {
        let i = choose|i: int| 0 <= i < s.len() && #[trigger] marks_up(s[i], f);
        assert(t[i] == s[i]);
    }
    if request_at(t, f).up {
        let i = choose|i: int| 0 <= i < t.len() && #[trigger] marks_up(t[i], f);
        if i < s.len() {
            assert(t[i] == s[i]);
        }
    }
    if request_at(s, f).down {
        let i = choose|i: int| 0 <= i < s.len() && #[trigger] marks_down(s[i], f);
        assert(t[i] == s[i]);
    }
    if request_at(t, f).down {
        let i = choose|i: int| 0 <= i < t.len() && #[trigger] marks_down(t[i], f);
        if i < s.len() {
            assert(t[i] == s[i]);
        }
    }
    if request_at(s, f).cab {
        let i = choose|i: int| 0 <= i < s.len() && #[trigger] marks_cab(s[i], f);
        assert(t[i] == s[i]);
    }
    if request_at(t, f).cab {
        let i = choose|i: int| 0 <= i < t.len() && #[trigger] marks_cab(t[i], f);
        if i < s.len() {
            assert(t[i] == s[i]);
        }
    }
}

/// The requests at every floor that the confirmed orders in `orders` make.
pub fn floor_requests(orders: &VecDeque<Order>) -> (reqs: Vec<FloorDirection>)
    requires
        confirmed_floors_valid(order_views(orders@)),
    ensures
        reqs@ == requests_of(order_views(orders@)),
{
    let ghost views = order_views(orders@);
    let mut reqs: Vec<FloorDirection> = Vec::new();
    let mut k: usize = 0;
    while k < ELEV_HEIGHT
        invariant
            k <= ELEV_HEIGHT,
            reqs@.len() == k,
            forall|f: int| 0 <= f < k ==> #[trigger] reqs@[f] == (FloorDirection { up: false, down: false, cab: false }),
        decreases ELEV_HEIGHT - k,
    {
        reqs.push(FloorDirection::new());
        k += 1;
    }
    proof {
        assert forall|f: int| 0 <= f < ELEV_HEIGHT implies #[trigger] reqs@[f] == request_at(views.take(0), f) by {
            assert(views.take(0).len() == 0);
        }
    }
    let mut j: usize = 0;
    while j < orders.len()
        invariant
            j <= orders.len(),
            views == order_views(orders@),
            confirmed_floors_valid(views),
            reqs@.len() == ELEV_HEIGHT,
            forall|f: int| 0 <= f < ELEV_HEIGHT ==> #[trigger] reqs@[f] == request_at(views.take(j as int), f),
        decreases orders.len() - j,
    {
        let o = &orders[j];
        let ghost before = reqs@;
        proof {
            assert(views.take(j + 1) =~= views.take(j as int).push(o@));
            assert(views[j as int] == o@);
        }
        if *o.get_order_status() == OrderStatus::Confirmed {
            let f = *o.get_floor() as usize;
            let cur = reqs[f];
            let next = match *o.get_order_type() {
                OrderType::Cab => FloorDirection { up: cur.up, down: cur.down, cab: true },
                OrderType::Hall => {
                    if *o.get_direction() == OrderDirection::Up {
                        FloorDirection { up: true, down: cur.down, cab: cur.cab }
                    } else {
                        FloorDirection { up: cur.up, down: true, cab: cur.cab }
                    }
                },
            };
            reqs.set(f, next);
        }
        proof {
            assert forall|f: int| 0 <= f < ELEV_HEIGHT implies #[trigger] reqs@[f] == request_at(
                views.take(j + 1),
                f,
            ) by {
                lemma_request_at_push(views.take(j as int), o@, f);
                assert(before[f] == request_at(views.take(j as int), f));
            }
        }
        j += 1;
    }
    proof {
        assert(views.take(orders.len() as int) =~= views);
        assert(reqs@ =~= requests_of(views));
    }
    reqs
}

// ---------------------------------------------------------------------------
// Button lights

/// The three button lights of floor `f`: up, down and cab.
pub open spec fn floor_lights(f: int, r: FloorDirection) -> Seq<HardwareData> {
    seq![
        HardwareData::SetCallButtonLight { floor: f as u8, call: 0, status: r.up },
        HardwareData::SetCallButtonLight { floor: f as u8, call: 1, status: r.down },
        HardwareData::SetCallButtonLight { floor: f as u8, call: 2, status: r.cab },
    ]
}

/// The button lights of the floors below `n`, floor by floor.
pub open spec fn lights_upto(reqs: Seq<FloorDirection>, n: int) -> Seq<HardwareData>
    decreases n,
{
    if n <= 0 {
        Seq::empty()
    } else {
        lights_upto(reqs, n - 1) + floor_lights(n - 1, reqs[n - 1])
    }
}

/// The button lights of every floor, each showing whether its request stands.
pub open spec fn request_lights(reqs: Seq<FloorDirection>) -> Seq<HardwareData> {
    lights_upto(reqs, ELEV_HEIGHT as int)
}

/// The commands that set every button light to the requests `reqs`.
pub fn light_commands(reqs: &Vec<FloorDirection>) -> (lights: Vec<HardwareData>)
    requires
        reqs@.len() == ELEV_HEIGHT,
    ensures
        lights@ == request_lights(reqs@),
{
    let mut lights: Vec<HardwareData> = Vec::new();
    let mut i: usize = 0;
    while i < ELEV_HEIGHT
        invariant
            i <= ELEV_HEIGHT,
            reqs@.len() == ELEV_HEIGHT,
            lights@ == lights_upto(reqs@, i as int),
        decreases ELEV_HEIGHT - i,
    {
        let r = reqs[i];
        let f = i as u8;
        lights.push(HardwareData::SetCallButtonLight { floor: f, call: 0, status: r.up });
        lights.push(HardwareData::SetCallButtonLight { floor: f, call: 1, status: r.down });
        lights.push(HardwareData::SetCallButtonLight { floor: f, call: 2, status: r.cab });
        proof {
            assert(lights@ =~= lights_upto(reqs@, i as int) + floor_lights(i as int, reqs@[i as int]));
        }
        i += 1;
    }
    lights
}

/// Whether a message carries a new cab order list whose confirmed orders
/// are all for floors that exist (any other message is fine as it is).
pub open spec fn order_message_valid(msg: Message) -> bool {
    msg.data matches MessageContent::Memory(md) ==> (md.data matches ElevatorStatusCommand::SetCabOrders {
        elevator_id: _,
        orders,
    } ==> confirmed_floors_valid(order_views(orders@)))
}

/// Whether every confirmed order in `orders` is for a floor that exists.
pub fn confirmed_floors_are_valid(orders: &VecDeque<Order>) -> (ok: bool)
    ensures
        ok == confirmed_floors_valid(order_views(orders@)),
{
    let ghost views = order_views(orders@);
    let mut j: usize = 0;
    while j < orders.len()
        invariant
            j <= orders.len(),
            views == order_views(orders@),
            forall|i: int|
                0 <= i < j && #[trigger] views[i].order_status == OrderStatus::Confirmed ==> views[i].floor
                    < FLOOR_COUNT,
        decreases orders.len() - j,
    {
        let o = &orders[j];
        assert(views[j as int] == o@);
        if *o.get_order_status() == OrderStatus::Confirmed && *o.get_floor() >= FLOOR_COUNT {
            return false;
        }
        j += 1;
    }
    true
}

/// Whether `handle_order_message` accepts `msg` (see `order_message_valid`).
pub fn order_message_is_valid(msg: &Message) -> (ok: bool)
    ensures
        ok == order_message_valid(*msg),
{
    match &msg.data {
        MessageContent::Memory(md) => match &md.data {
            ElevatorStatusCommand::SetCabOrders { elevator_id: _, orders } => confirmed_floors_are_valid(orders),
            _ => true,
        },
        _ => true,
    }
}

/// Takes in a message for the hardware loop. A new order list replaces the
/// requests with those of its confirmed orders and, when the list is not
/// empty, sets every button light to match; any other message changes
/// nothing.
pub fn handle_order_message(msg: Message, reqs: &mut Vec<FloorDirection>) -> (lights: Vec<HardwareData>)
    requires
        order_message_valid(msg),
    ensures
        match msg.data {
            MessageContent::Memory(md) => match md.data {
                ElevatorStatusCommand::SetCabOrders { elevator_id: _, orders } => {
                    &&& final(reqs)@ == requests_of(order_views(orders@))
                    &&& lights@ == (if orders@.len() > 0 {
                        request_lights(final(reqs)@)
                    } else {
                        Seq::<HardwareData>::empty()
                    })
                },
                _ => final(reqs)@ == old(reqs)@ && lights@ == Seq::<HardwareData>::empty(),
            },
            _ => final(reqs)@ == old(reqs)@ && lights@ == Seq::<HardwareData>::empty(),
        },
{
    match msg.data {
        MessageContent::Memory(md) => match md.data {
            ElevatorStatusCommand::SetCabOrders { elevator_id: _, orders } => {
                *reqs = floor_requests(&orders);
                if orders.len() > 0 {
                    light_commands(reqs)
                } else {
                    Vec::new()
                }
            },
            _ => Vec::new(),
        },
        _ => Vec::new(),
    }
}

// ---------------------------------------------------------------------------
// The control tick

/// Whether floor `r` has any request.
pub open spec fn any_request(r: FloorDirection) -> bool {
    r.up || r.down || r.cab
}

/// The lowest floor in `lo..hi` with a request.
pub open spec fn lowest_request(reqs: Seq<FloorDirection>, lo: int, hi: int) -> Option<int>
    decreases hi - lo,
{
    if lo >= hi {
        None
    } else if any_request(reqs[lo]) {
        Some(lo)
    } else {
        lowest_request(reqs, lo + 1, hi)
    }
}

/// The highest floor in `lo..hi` with a request.
pub open spec fn highest_request(reqs: Seq<FloorDirection>, lo: int, hi: int) -> Option<int>
    decreases hi - lo,
{
    if lo >= hi {
        None
    } else if any_request(reqs[hi - 1]) {
        Some(hi - 1)
    } else {
        highest_request(reqs, lo, hi - 1)
    }
}

/// The lowest floor in `lo..hi` with a request.
pub fn find_lowest(reqs: &Vec<FloorDirection>, lo: usize, hi: usize) -> (r: Option<usize>)
    requires
        hi <= reqs@.len(),
    ensures
        r == (match lowest_request(reqs@, lo as int, hi as int) {
            Some(f) => Some(f as usize),
            None => None::<usize>,
        }),
{
    let mut f = lo;
    while f < hi
        invariant
            lo <= f,
            hi <= reqs@.len(),
            lowest_request(reqs@, lo as int, hi as int) == lowest_request(reqs@, f as int, hi as int),
        decreases hi - f,
    {
        let r = reqs[f];
        if r.up || r.down || r.cab {
            return Some(f);
        }
        f += 1;
    }
    None
}

/// The highest floor in `lo..hi` with a request.
pub fn find_highest(reqs: &Vec<FloorDirection>, lo: usize, hi: usize) -> (r: Option<usize>)
    requires
        hi <= reqs@.len(),
    ensures
        r == (match highest_request(reqs@, lo as int, hi as int) {
            Some(f) => Some(f as usize),
            None => None::<usize>,
        }),
{
    let mut f = hi;
    while f > lo
        invariant
            f <= hi,
            hi <= reqs@.len(),
            highest_request(reqs@, lo as int, hi as int) == highest_request(reqs@, lo as int, f as int),
        decreases f,
    {
        let r = reqs[f - 1];
        if r.up || r.down || r.cab {
            return Some(f - 1);
        }
        f -= 1;
    }
    None
}

/// Whether a car at a floor with requests `r`, moving as `m`, stops there:
/// for a cab request, for a hall request its way, or when it is standing.
pub open spec fn should_stop(r: FloorDirection, m: MotorState) -> bool {
    ||| r.cab
    ||| (m == MotorState::Up && r.up)
    ||| (m == MotorState::Down && r.down)
    ||| m == MotorState::Stop
}

/// The opposite way of travel; a standing car turns upwards.
pub open spec fn swapped(m: MotorState) -> MotorState {
    match m {
        MotorState::Up => MotorState::Down,
        MotorState::Down => MotorState::Up,
        MotorState::Stop => MotorState::Up,
    }
}

/// The opposite way of travel; a standing car turns upwards.
pub fn dir_swap(current_dir: MotorState) -> (d: MotorState)
    ensures
        d == swapped(current_dir),
{
    match current_dir {
        MotorState::Up => MotorState::Down,
        MotorState::Down => MotorState::Up,
        MotorState::Stop => MotorState::Up,
    }
}

/// The car stops and opens its door at `now`.
pub open spec fn stopped(d: ElevatorData, now: u64) -> ElevatorData {
    ElevatorData { motor_direction: MotorState::Stop, door_status: true, door_timeout: Some(now), ..d }
}

/// Stops the car and opens its door at `now_ms`: the state changes as
/// `stopped` says and the motor and door commands come back.
pub fn stop_logic(elevator_data: &mut ElevatorData, now_ms: u64) -> (commands: Vec<HardwareData>)
    ensures
        *final(elevator_data) == stopped(*old(elevator_data), now_ms),
        commands@ == seq![HardwareData::SetMotorDirection(DIRN_STOP), HardwareData::SetDoorLight(true)],
{
    elevator_data.motor_direction = MotorState::Stop;
    let mut commands: Vec<HardwareData> = Vec::new();
    commands.push(HardwareData::SetMotorDirection(DIRN_STOP));
    elevator_data.door_status = true;
    commands.push(HardwareData::SetDoorLight(true));
    elevator_data.door_timeout = Some(now_ms);
    proof {
        assert(commands@ =~= seq![HardwareData::SetMotorDirection(DIRN_STOP), HardwareData::SetDoorLight(true)]);
    }
    commands
}

/// The first part of a tick: the door and the motor. With the door open the
/// motor stands, an obstruction restarts the door's three seconds, and once
/// they are over the door closes. With the door closed at the floor aimed
/// for, the car stops there if `should_stop` says so and turns round
/// otherwise. Between floors it drives towards the floor aimed for, unless
/// the stop button is held.
pub open spec fn motor_phase(d: ElevatorData, reqs: Seq<FloorDirection>, now: u64) -> (
    ElevatorData,
    Seq<HardwareData>,
) {
    if d.door_status {
        let timeout = if d.obstruction {
            Some(now)
        } else {
            d.door_timeout
        };
        if timeout matches Some(t) && since(now, t) >= DOOR_OPEN_MS {
            (
                ElevatorData { door_status: false, door_timeout: None, ..d },
                seq![HardwareData::SetDoorLight(false), HardwareData::SetMotorDirection(DIRN_STOP)],
            )
        } else {
            (ElevatorData { door_timeout: timeout, ..d }, seq![HardwareData::SetMotorDirection(DIRN_STOP)])
        }
    } else if d.current_floor == d.next_stop {
        if should_stop(reqs[d.current_floor as int], d.motor_direction) {
            (stopped(d, now), seq![HardwareData::SetMotorDirection(DIRN_STOP), HardwareData::SetDoorLight(true)])
        } else {
            (ElevatorData { motor_direction: swapped(d.motor_direction), ..d }, Seq::empty())
        }
    } else if !d.stop_button {
        (d, seq![HardwareData::SetMotorDirection(if d.current_floor < d.next_stop { DIRN_UP } else { DIRN_DOWN })])
    } else {
        (d, seq![HardwareData::SetMotorDirection(DIRN_STOP)])
    }
}

/// The floor aimed for next, by a car with its door closed. Going up: the
/// lowest requested floor above, else the highest requested floor (turning
/// down if that is below). Going down: the highest requested floor below,
/// else the lowest requested floor (turning up if that is above). Standing:
/// the lowest requested floor, moving towards it. With no request nothing
/// changes.
pub open spec fn next_stop_choice(d: ElevatorData, reqs: Seq<FloorDirection>) -> ElevatorData {
    let c = d.current_floor as int;
    let h = ELEV_HEIGHT as int;
    match d.motor_direction {
        MotorState::Up => match lowest_request(reqs, c + 1, h) {
            Some(t) => ElevatorData { next_stop: t as u8, ..d },
            None => match highest_request(reqs, 0, h) {
                Some(t) => ElevatorData {
                    next_stop: t as u8,
                    motor_direction: if t < c {
                        MotorState::Down
                    } else {
                        MotorState::Up
                    },
                    ..d
                },
                None => d,
            },
        },
        MotorState::Down => match highest_request(reqs, 0, c) {
            Some(t) => ElevatorData { next_stop: t as u8, ..d },
            None => match lowest_request(reqs, 0, h) {
                Some(t) => ElevatorData {
                    next_stop: t as u8,
                    motor_direction: if t > c {
                        MotorState::Up
                    } else {
                        MotorState::Down
                    },
                    ..d
                },
                None => d,
            },
        },
        MotorState::Stop => match lowest_request(reqs, 0, h) {
            Some(t) => ElevatorData {
                next_stop: t as u8,
                motor_direction: if t > c {
                    MotorState::Up
                } else {
                    MotorState::Down
                },
                ..d
            },
            None => d,
        },
    }
}

/// One tick of the hardware loop: the floor indicator, then the door and
/// motor (`motor_phase`), then, with the door closed, the next floor to aim
/// for (`next_stop_choice`).
pub open spec fn tick(d: ElevatorData, reqs: Seq<FloorDirection>, now: u64) -> (ElevatorData, Seq<HardwareData>) {
    let phase = motor_phase(d, reqs, now);
    (
        if !phase.0.door_status {
            next_stop_choice(phase.0, reqs)
        } else {
            phase.0
        },
        seq![HardwareData::SetFloorIndicator(d.current_floor)] + phase.1,
    )
}

proof fn lemma_lowest_in_range(reqs: Seq<FloorDirection>, lo: int, hi: int)
    ensures
        lowest_request(reqs, lo, hi) matches Some(t) ==> lo <= t < hi,
    decreases hi - lo,
{
    if lo < hi && !any_request(reqs[lo]) {
        lemma_lowest_in_range(reqs, lo + 1, hi);
    }
}

proof fn lemma_highest_in_range(reqs: Seq<FloorDirection>, lo: int, hi: int)
    ensures
        highest_request(reqs, lo, hi) matches Some(t) ==> lo <= t < hi,
    decreases hi - lo,
{
    if lo < hi && !any_request(reqs[hi - 1]) {
        lemma_highest_in_range(reqs, lo, hi - 1);
    }
}

/// Picks the floor to aim for next, as `next_stop_choice` says.
pub fn choose_next_stop(elevator_data: &mut ElevatorData, reqs: &Vec<FloorDirection>)
    requires
        reqs@.len() == ELEV_HEIGHT,
        old(elevator_data).motor_direction == MotorState::Down ==> old(elevator_data).current_floor <= FLOOR_COUNT,
    ensures
        *final(elevator_data) == next_stop_choice(*old(elevator_data), reqs@),
{
    let c_floor = elevator_data.current_floor as usize;
    proof {
        lemma_lowest_in_range(reqs@, c_floor + 1, 4);
        lemma_lowest_in_range(reqs@, 0, 4);
        lemma_highest_in_range(reqs@, 0, 4);
        lemma_highest_in_range(reqs@, 0, c_floor as int);
    }
    match elevator_data.motor_direction {
        MotorState::Up => {
            if let Some(target) = find_lowest(reqs, c_floor + 1, ELEV_HEIGHT) {
                elevator_data.next_stop = target as u8;
            } else if let Some(target) = find_highest(reqs, 0, ELEV_HEIGHT) {
                elevator_data.next_stop = target as u8;
                if elevator_data.next_stop < elevator_data.current_floor {
                    elevator_data.motor_direction = MotorState::Down;
                }
            }
        },
        MotorState::Down => {
            if let Some(target) = find_highest(reqs, 0, c_floor) {
                elevator_data.next_stop = target as u8;
            } else if let Some(target) = find_lowest(reqs, 0, ELEV_HEIGHT) {
                elevator_data.next_stop = target as u8;
                if elevator_data.next_stop > elevator_data.current_floor {
                    elevator_data.motor_direction = MotorState::Up;
                }
            }
        },
        MotorState::Stop => {
            if let Some(target) = find_lowest(reqs, 0, ELEV_HEIGHT) {
                elevator_data.next_stop = target as u8;
                elevator_data.motor_direction = if elevator_data.next_stop > elevator_data.current_floor {
                    MotorState::Up
                } else {
                    MotorState::Down
                };
            }
        },
    }
}

/// The car states on which a tick looks up no floor that does not exist:
/// at the floor it aims for, with the door closed, the car is at a floor
/// that exists; and when the door is closed after the first part of the tick
/// and the car is going down, the floors below it are floors that exist.
pub open spec fn tick_allowed(d: ElevatorData, reqs: Seq<FloorDirection>, now: u64) -> bool {
    let phase = motor_phase(d, reqs, now).0;
    &&& (!d.door_status && d.current_floor == d.next_stop ==> d.current_floor < FLOOR_COUNT)
    &&& (!phase.door_status && phase.motor_direction == MotorState::Down ==> d.current_floor <= FLOOR_COUNT)
}

/// Whether `hardware_tick` accepts the car state `d` at `now_ms` (see
/// `tick_allowed`).
pub fn can_tick(d: &ElevatorData, reqs: &Vec<FloorDirection>, now_ms: u64) -> (ok: bool)
    requires
        reqs@.len() == ELEV_HEIGHT,
    ensures
        ok == tick_allowed(*d, reqs@, now_ms),
{
    if !d.door_status && d.current_floor == d.next_stop && d.current_floor >= FLOOR_COUNT {
        return false;
    }
    let closed_going_down = if d.door_status {
        let timeout = if d.obstruction {
            Some(now_ms)
        } else {
            d.door_timeout
        };
        let closes = match timeout {
            Some(t) => {
                let elapsed = if now_ms >= t {
                    now_ms - t
                } else {
                    0
                };
                elapsed >= DOOR_OPEN_MS
            },
            None => false,
        };
        closes && d.motor_direction == MotorState::Down
    } else if d.current_floor == d.next_stop {
        let r = reqs[d.current_floor as usize];
        let stop = r.cab || (d.motor_direction == MotorState::Up && r.up) || (d.motor_direction == MotorState::Down
            && r.down) || d.motor_direction == MotorState::Stop;
        !stop && dir_swap(d.motor_direction) == MotorState::Down
    } else {
        d.motor_direction == MotorState::Down
    };
    !(closed_going_down && d.current_floor > FLOOR_COUNT)
}

/// One tick of the hardware loop at time `now_ms`, as `tick` says: the car
/// state changes and the commands for the hardware come back.
pub fn hardware_tick(elevator_data: &mut ElevatorData, reqs: &Vec<FloorDirection>, now_ms: u64) -> (commands: Vec<
    HardwareData,
>)
    requires
        reqs@.len() == ELEV_HEIGHT,
        tick_allowed(*old(elevator_data), reqs@, now_ms),
    ensures
        (*final(elevator_data), commands@) == tick(*old(elevator_data), reqs@, now_ms),
        old(elevator_data).next_stop < FLOOR_COUNT ==> final(elevator_data).next_stop < FLOOR_COUNT,
{
    let ghost d0 = *elevator_data;
    let mut commands: Vec<HardwareData> = Vec::new();
    commands.push(HardwareData::SetFloorIndicator(elevator_data.current_floor));
    if elevator_data.door_status {
        if elevator_data.obstruction {
            elevator_data.door_timeout = Some(now_ms);
        }
        if let Some(timer) = elevator_data.door_timeout {
            let elapsed = if now_ms >= timer {
                now_ms - timer
            } else {
                0
            };
            if elapsed >= DOOR_OPEN_MS {
                elevator_data.door_status = false;
                elevator_data.door_timeout = None;
                commands.push(HardwareData::SetDoorLight(false));
            }
        }
        commands.push(HardwareData::SetMotorDirection(DIRN_STOP));
    } else if elevator_data.current_floor == elevator_data.next_stop {
        let req = reqs[elevator_data.current_floor as usize];
        let stop = req.cab || (elevator_data.motor_direction == MotorState::Up && req.up) || (
        elevator_data.motor_direction == MotorState::Down && req.down) || elevator_data.motor_direction
            == MotorState::Stop;
        if stop {
            let mut more = stop_logic(elevator_data, now_ms);
            commands.append(&mut more);
        } else {
            elevator_data.motor_direction = dir_swap(elevator_data.motor_direction);
        }
    } else {
        if !elevator_data.stop_button {
            let dir = if elevator_data.current_floor < elevator_data.next_stop {
                DIRN_UP
            } else {
                DIRN_DOWN
            };
            commands.push(HardwareData::SetMotorDirection(dir));
        } else {
            commands.push(HardwareData::SetMotorDirection(DIRN_STOP));
        }
    }
    let ghost phase = motor_phase(d0, reqs@, now_ms);
    assert(*elevator_data == phase.0);
    assert(commands@ =~= seq![HardwareData::SetFloorIndicator(d0.current_floor)] + phase.1);
    if !elevator_data.door_status {
        choose_next_stop(elevator_data, reqs);
        proof {
            lemma_lowest_in_range(reqs@, d0.current_floor + 1, 4);
            lemma_lowest_in_range(reqs@, 0, 4);
            lemma_highest_in_range(reqs@, 0, 4);
            lemma_highest_in_range(reqs@, 0, d0.current_floor as int);
        }
    }
    commands
}

// ---------------------------------------------------------------------------
// Inputs

/// The message that reports a pressed call button.
pub fn call_button_handler(floor: u8, call: u8) -> (m: Message)
    ensures
        m.id == 0,
        m.data matches MessageContent::Hardware(HardwareData::CallButton(b)) && b.floor == floor && b.call == call,
{
    Message::new(MessageContent::Hardware(HardwareData::CallButton(ConvertedCallButton::from_call_button(floor, call))))
}

/// The message that reports the floor sensor.
pub fn floor_sensor_handler(fs: u8) -> (m: Message)
    ensures
        m == (Message { id: 0, data: MessageContent::Hardware(HardwareData::FloorSensor(fs)) }),
{
    Message::new(MessageContent::Hardware(HardwareData::FloorSensor(fs)))
}

/// The message that reports the stop button.
pub fn stop_button_handler(sb: bool) -> (m: Message)
    ensures
        m == (Message { id: 0, data: MessageContent::Hardware(HardwareData::StopButton(sb)) }),
{
    Message::new(MessageContent::Hardware(HardwareData::StopButton(sb)))
}

/// The message that reports the obstruction switch.
pub fn obstruction_handler(ob: bool) -> (m: Message)
    ensures
        m == (Message { id: 0, data: MessageContent::Hardware(HardwareData::Obstruction(ob)) }),
{
    Message::new(MessageContent::Hardware(HardwareData::Obstruction(ob)))
}

} // verus!
