use std::collections::{HashMap, VecDeque};
use vstd::prelude::*;

use crate::collections::map_keys;
use crate::memory::elevator::{
    order_views, Behaviour, DeadOrAlive, Elevator, ElevatorDirection, ElevatorView, Obstruction,
};
use crate::memory::hall_order_queue::order_map_views;
use crate::memory::orders::{Order, OrderDirection, OrderStatus, OrderType, OrderView};
use crate::memory::world_view::{elevator_map_views, WorldView};

verus! {

broadcast use vstd::std_specs::hash::group_hash_axioms;

/// An elevator as the hall request assigner sees it, as plain values.
pub struct ElevatorStateView {
    pub behaviour: Behaviour,
    pub floor: u8,
    pub direction: ElevatorDirection,
    /// One flag per floor: whether the car has a cab order there.
    pub cab_requests: Seq<bool>,
}

/// An elevator as the hall request assigner sees it.
#[derive(Debug)]
pub struct ElevatorState {
    behaviour: Behaviour,
    floor: u8,
    direction: ElevatorDirection,
    cab_requests: Vec<bool>,
}

impl View for ElevatorState {
    type V = ElevatorStateView;

    closed spec fn view(&self) -> ElevatorStateView {
        ElevatorStateView {
            behaviour: self.behaviour,
            floor: self.floor,
            direction: self.direction,
            cab_requests: self.cab_requests@,
        }
    }
}

impl ElevatorState {
    pub fn new(
        behaviour: Behaviour,
        floor: u8,
        direction: ElevatorDirection,
        cab_requests: Vec<bool>,
    ) -> (s: Self)
        ensures
            s@ == (ElevatorStateView { behaviour, floor, direction, cab_requests: cab_requests@ }),
    {
        Self { behaviour, floor, direction, cab_requests }
    }

    pub fn get_behaviour(&self) -> (b: Behaviour)
        ensures
            b == self@.behaviour,
    {
        self.behaviour
    }

    pub fn get_floor(&self) -> (f: u8)
        ensures
            f == self@.floor,
    {
        self.floor
    }

    pub fn get_direction(&self) -> (d: ElevatorDirection)
        ensures
            d == self@.direction,
    {
        self.direction
    }

    pub fn get_cab_requests(&self) -> (r: &Vec<bool>)
        ensures
            r@ == self@.cab_requests,
    {
        &self.cab_requests
    }
}

/// The views of a map of assigner states.
pub open spec fn state_map_views(m: Map<u16, ElevatorState>) -> Map<u16, ElevatorStateView> {
    m.map_values(|s: ElevatorState| s@)
}

/// What the hall request assigner is asked, as plain values.
pub struct InputView {
    /// For each of the four floors, whether there is a hall call up and down.
    pub hall_requests: Seq<Seq<bool>>,
    pub states: Map<u16, ElevatorStateView>,
}

/// What the hall request assigner is asked: the hall calls of the four
/// floors and the state of each elevator that can take them.
#[derive(Debug)]
pub struct Input {
    hall_requests: [[bool; 2]; 4],
    states: HashMap<u16, ElevatorState>,
}

impl View for Input {
    type V = InputView;

    closed spec fn view(&self) -> InputView {
        InputView {
            hall_requests: self.hall_requests@.map_values(|r: [bool; 2]| r@),
            states: state_map_views(self.states@),
        }
    }
}

impl Input {
    pub fn new(hall_requests: [[bool; 2]; 4], states: HashMap<u16, ElevatorState>) -> (i: Self)
        ensures
            i@ == (InputView {
                hall_requests: hall_requests@.map_values(|r: [bool; 2]| r@),
                states: state_map_views(states@),
            }),
    {
        Self { hall_requests, states }
    }

    pub fn get_hall_requests(&self) -> (r: &[[bool; 2]; 4])
        ensures
            r@.map_values(|r: [bool; 2]| r@) == self@.hall_requests,
    {
        &self.hall_requests
    }

    pub fn get_states(&self) -> (s: &HashMap<u16, ElevatorState>)
        ensures
            state_map_views(s@) == self@.states,
    {
        &self.states
    }
}

/// Whether some order of `orders` is at `floor` in direction `direction`.
pub open spec fn has_request(orders: Map<u16, OrderView>, floor: int, direction: OrderDirection) -> bool {
    exists|k: u16|
        #![trigger orders[k]]
        orders.contains_key(k) && orders[k].floor == floor && orders[k].direction == direction
}

/// The hall call table of a set of hall orders: for each of the four floors,
/// whether an order asks for up there, and whether one asks for down.
pub open spec fn hall_request_table(orders: Map<u16, OrderView>) -> Seq<Seq<bool>> {
    Seq::new(
        4,
        |f: int| seq![has_request(orders, f, OrderDirection::Up), has_request(orders, f, OrderDirection::Down)],
    )
}

/// Every order is at one of the four floors.
pub open spec fn floors_in_range(orders: Map<u16, OrderView>) -> bool {
    forall|k: u16| #[trigger] orders.contains_key(k) ==> orders[k].floor < 4
}

/// Whether some order of `orders` is at `floor` in direction `direction`.
fn any_request(orders: &HashMap<u16, Order>, floor: u8, direction: OrderDirection) -> (found: bool)
    ensures
        found == has_request(order_map_views(orders@), floor as int, direction),
{
    let ghost m = order_map_views(orders@);
    let keys = map_keys(orders);
    let mut i: usize = 0;
    while i < keys.len()
        invariant
            i <= keys.len(),
            m == order_map_views(orders@),
            keys@.to_set() == orders@.dom(),
            forall|j: int| 0 <= j < i ==> !(#[trigger] m[keys@[j]].floor == floor && m[keys@[j]].direction == direction),
        decreases keys.len() - i,
    {
        let k = keys[i];
        assert(keys@.to_set().contains(k));
        let o = orders.get(&k).unwrap();
        if *o.get_floor() == floor && *o.get_direction() == direction {
            assert(m[k].floor == floor && m[k].direction == direction);
            return true;
        }
        i += 1;
    }
    assert forall|k: u16| m.contains_key(k) implies !(m[k].floor == floor && m[k].direction == direction) by {
        assert(keys@.to_set().contains(k));
        let j = choose|j: int| 0 <= j < keys@.len() && keys@[j] == k;
        assert(!(m[keys@[j]].floor == floor && m[keys@[j]].direction == direction));
    }
    false
}

/// The hall call table of `order_queue` (see `hall_request_table`); every
/// order must be at one of the four floors.
pub fn hall_order_format_converter(order_queue: &HashMap<u16, Order>) -> (queue: [[bool; 2]; 4])
    requires
        floors_in_range(order_map_views(order_queue@)),
    ensures
        queue@.map_values(|r: [bool; 2]| r@) == hall_request_table(order_map_views(order_queue@)),
{
    let up0 = any_request(order_queue, 0, OrderDirection::Up);
    let down0 = any_request(order_queue, 0, OrderDirection::Down);
    let up1 = any_request(order_queue, 1, OrderDirection::Up);
    let down1 = any_request(order_queue, 1, OrderDirection::Down);
    let up2 = any_request(order_queue, 2, OrderDirection::Up);
    let down2 = any_request(order_queue, 2, OrderDirection::Down);
    let up3 = any_request(order_queue, 3, OrderDirection::Up);
    let down3 = any_request(order_queue, 3, OrderDirection::Down);
    let queue = [[up0, down0], [up1, down1], [up2, down2], [up3, down3]];
    assert(queue@.map_values(|r: [bool; 2]| r@) =~= hall_request_table(order_map_views(order_queue@)));
    queue
}

/// Whether some order of `orders` is at `floor`.
pub open spec fn has_order_at(orders: Seq<OrderView>, floor: int) -> bool {
    exists|j: int| 0 <= j < orders.len() && #[trigger] orders[j].floor == floor
}

/// The cab request flags of a queue of cab orders: one per floor, for the
/// four floors.
pub open spec fn cab_request_flags(orders: Seq<OrderView>) -> Seq<bool> {
    Seq::new(4, |f: int| has_order_at(orders, f))
}

/// Whether some order of `orders` is at `floor`.
fn any_order_at(orders: &VecDeque<Order>, floor: u8) -> (found: bool)
    ensures
        found == has_order_at(order_views(orders@), floor as int),
{
    let ghost v = order_views(orders@);
    let mut i: usize = 0;
    while i < orders.len()
        invariant
            i <= orders.len(),
            v == order_views(orders@),
            forall|j: int| 0 <= j < i ==> #[trigger] v[j].floor != floor,
        decreases orders.len() - i,
    {
        if *orders[i].get_floor() == floor {
            assert(v[i as int].floor == floor);
            return true;
        }
        i += 1;
    }
    false
}

/// The cab request flags of `order_queue` (see `cab_request_flags`); every
/// order must be at one of the four floors.
pub fn cab_order_format_converter(order_queue: &VecDeque<Order>) -> (queue: Vec<bool>)
    requires
        forall|j: int| 0 <= j < order_queue@.len() ==> #[trigger] order_queue@[j]@.floor < 4,
    ensures
        queue@ == cab_request_flags(order_views(order_queue@)),
{
    let mut queue: Vec<bool> = Vec::new();
    let mut f: u8 = 0;
    while f < 4
        invariant
            f <= 4,
            queue@ == Seq::new(f as nat, |g: int| has_order_at(order_views(order_queue@), g)),
        decreases 4 - f,
    {
        let b = any_order_at(order_queue, f);
        queue.push(b);
        assert(queue@ =~= Seq::new((f + 1) as nat, |g: int| has_order_at(order_views(order_queue@), g)));
        f += 1;
    }
    queue
}

/// Whether the assigner is told about an elevator: alive and with a clear
/// door.
pub open spec fn can_take_calls(e: ElevatorView) -> bool {
    e.dead_or_alive == DeadOrAlive::Alive && e.obstruction == Obstruction::Clear
}

/// The assigner state of an elevator.
pub open spec fn state_of(e: ElevatorView) -> ElevatorStateView {
    ElevatorStateView {
        behaviour: e.behaviour,
        floor: e.floor,
        direction: e.direction,
        cab_requests: cab_request_flags(e.cab_orders),
    }
}

/// The confirmed hall orders.
pub open spec fn confirmed_orders(orders: Map<u16, OrderView>) -> Map<u16, OrderView> {
    Map::new(
        |k: u16| orders.contains_key(k) && orders[k].order_status == OrderStatus::Confirmed,
        |k: u16| orders[k],
    )
}

/// The confirmed hall orders of a picture, the ones the assigner deals out.
pub fn filtered_hall_orders(last_world_view: &WorldView) -> (filtered: HashMap<u16, Order>)
    ensures
        order_map_views(filtered@) == confirmed_orders(last_world_view@.hall.orders),
{
    let queue = last_world_view.get_hall_order_queue().get_order_queue();
    let ghost m = order_map_views(queue@);
    let keys = map_keys(queue);
    let mut filtered: HashMap<u16, Order> = HashMap::new();
    let mut i: usize = 0;
    while i < keys.len()
        invariant
            i <= keys.len(),
            m == order_map_views(queue@),
            m == last_world_view@.hall.orders,
            keys@.to_set() == queue@.dom(),
            order_map_views(filtered@) == Map::new(
                |k: u16| keys@.take(i as int).contains(k) && m.contains_key(k) && m[k].order_status == OrderStatus::Confirmed,
                |k: u16| m[k],
            ),
        decreases keys.len() - i,
    {
        let k = keys[i];
        proof {
            assert(keys@.take(i + 1) =~= keys@.take(i as int).push(k));
            assert(keys@.to_set().contains(k));
            crate::memory::hall_order_queue::lemma_order_map_views_insert_any(filtered@);
        }
        let o = queue.get(&k).unwrap();
        assert(o@ == m[k]);
        if *o.get_order_status() == OrderStatus::Confirmed {
            filtered.insert(k, o.clone());
        }
        proof {
            assert forall|x: u16| x != k implies keys@.take(i + 1).contains(x) == keys@.take(
                i as int,
            ).contains(x) by {}
            assert(keys@.take(i + 1)[i as int] == k);
            assert(order_map_views(filtered@) =~= Map::new(
                |x: u16| keys@.take(i + 1).contains(x) && m.contains_key(x) && m[x].order_status == OrderStatus::Confirmed,
                |x: u16| m[x],
            ));
        }
        i += 1;
    }
    proof {
        assert(keys@.take(keys.len() as int) =~= keys@);
        assert forall|k: u16| keys@.contains(k) <==> m.contains_key(k) by {
            assert(keys@.to_set().contains(k) == keys@.contains(k));
        }
        assert(order_map_views(filtered@) =~= confirmed_orders(m));
    }
    filtered
}

/// The assigner question for a picture: the hall call table of the
/// confirmed hall orders, and the state of every elevator that can take
/// calls.
pub open spec fn assigner_input_spec(elevators: Map<u16, ElevatorView>, hall: Map<u16, OrderView>) -> InputView {
    InputView {
        hall_requests: hall_request_table(confirmed_orders(hall)),
        states: Map::new(
            |k: u16| elevators.contains_key(k) && can_take_calls(elevators[k]),
            |k: u16| state_of(elevators[k]),
        ),
    }
}

/// The pictures for which the assigner question can be put: every confirmed
/// hall order, and every cab order of an elevator that can take calls, is at
/// one of the four floors.
pub open spec fn assigner_input_ok(elevators: Map<u16, ElevatorView>, hall: Map<u16, OrderView>) -> bool {
    &&& floors_in_range(confirmed_orders(hall))
    &&& forall|k: u16, j: int|
        elevators.contains_key(k) && can_take_calls(elevators[k]) && 0 <= j
            < elevators[k].cab_orders.len() ==> #[trigger] elevators[k].cab_orders[j].floor < 4
}

/// Whether every confirmed hall order and every cab order of an elevator
/// that can take calls is at one of the four floors (see
/// `assigner_input_ok`).
pub fn assigner_input_valid(last_world_view: &WorldView) -> (ok: bool)
    ensures
        ok == assigner_input_ok(last_world_view@.elevators, last_world_view@.hall.orders),
{
    let ghost e = last_world_view@.elevators;
    let ghost h = last_world_view@.hall.orders;
    let queue = last_world_view.get_hall_order_queue().get_order_queue();
    let hall_keys = map_keys(queue);
    let mut i: usize = 0;
    while i < hall_keys.len()
        invariant
            i <= hall_keys.len(),
            h == order_map_views(queue@),
            h == last_world_view@.hall.orders,
            hall_keys@.to_set() == queue@.dom(),
            forall|j: int|
                0 <= j < i ==> (#[trigger] h[hall_keys@[j]]).order_status == OrderStatus::Confirmed
                    ==> h[hall_keys@[j]].floor < 4,
        decreases hall_keys.len() - i,
    {
        let k = hall_keys[i];
        assert(hall_keys@.to_set().contains(k));
        let o = queue.get(&k).unwrap();
        assert(o@ == h[k]);
        if *o.get_order_status() == OrderStatus::Confirmed && *o.get_floor() >= 4 {
            assert(confirmed_orders(h).contains_key(k));
            assert(confirmed_orders(h)[k].floor >= 4);
            return false;
        }
        i += 1;
    }
    assert forall|k: u16| #[trigger] confirmed_orders(h).contains_key(k) implies confirmed_orders(h)[k].floor < 4 by {
        assert(hall_keys@.to_set().contains(k));
        let j = choose|j: int| 0 <= j < hall_keys@.len() && hall_keys@[j] == k;
        assert(h[hall_keys@[j]].order_status == OrderStatus::Confirmed);
    }
    let statuses = last_world_view.get_elevator_statuses();
    let keys = map_keys(statuses);
    let mut i: usize = 0;
    while i < keys.len()
        invariant
            i <= keys.len(),
            e == elevator_map_views(statuses@),
            e == last_world_view@.elevators,
            h == last_world_view@.hall.orders,
            floors_in_range(confirmed_orders(h)),
            keys@.to_set() == statuses@.dom(),
            forall|x: int, j: int|
                0 <= x < i && can_take_calls(e[keys@[x]]) && 0 <= j < e[keys@[x]].cab_orders.len()
                    ==> #[trigger] e[keys@[x]].cab_orders[j].floor < 4,
        decreases keys.len() - i,
    {
        let k = keys[i];
        assert(keys@.to_set().contains(k));
        let el = statuses.get(&k).unwrap();
        assert(el@ == e[k]);
        if *el.get_dead_or_alive() == DeadOrAlive::Alive && *el.get_obstruction() == Obstruction::Clear {
            let cab = el.get_cab_orders();
            let mut j: usize = 0;
            while j < cab.len()
                invariant
                    j <= cab.len(),
                    e == elevator_map_views(statuses@),
                    e == last_world_view@.elevators,
                    e.contains_key(k),
                    can_take_calls(e[k]),
                    order_views(cab@) == e[k].cab_orders,
                    forall|q: int| 0 <= q < j ==> #[trigger] e[k].cab_orders[q].floor < 4,
                decreases cab.len() - j,
            {
                assert(e[k].cab_orders[j as int] == cab@[j as int]@);
                if *cab[j].get_floor() >= 4 {
                    assert(e.contains_key(k));
                    assert(e[k].cab_orders[j as int].floor >= 4);
                    return false;
                }
                j += 1;
            }
        }
        i += 1;
    }
    assert forall|k: u16, j: int|
        e.contains_key(k) && can_take_calls(e[k]) && 0 <= j < e[k].cab_orders.len()
            implies #[trigger] e[k].cab_orders[j].floor < 4 by {
        assert(keys@.to_set().contains(k));
        let x = choose|x: int| 0 <= x < keys@.len() && keys@[x] == k;
        assert(e[keys@[x]].cab_orders[j].floor < 4);
    }
    true
}

/// The question for the hall request assigner about a picture (see
/// `assigner_input_spec`).
pub fn assigner_input(last_world_view: &WorldView) -> (input: Input)
    requires
        assigner_input_ok(last_world_view@.elevators, last_world_view@.hall.orders),
    ensures
        input@ == assigner_input_spec(last_world_view@.elevators, last_world_view@.hall.orders),
{
    let ghost e = last_world_view@.elevators;
    let statuses = last_world_view.get_elevator_statuses();
    let keys = map_keys(statuses);
    let mut states: HashMap<u16, ElevatorState> = HashMap::new();
    let mut i: usize = 0;
    while i < keys.len()
        invariant
            i <= keys.len(),
            e == elevator_map_views(statuses@),
            keys@.to_set() == statuses@.dom(),
            assigner_input_ok(e, last_world_view@.hall.orders),
            state_map_views(states@) == Map::new(
                |k: u16| keys@.take(i as int).contains(k) && e.contains_key(k) && can_take_calls(e[k]),
                |k: u16| state_of(e[k]),
            ),
        decreases keys.len() - i,
    {
        let id = keys[i];
        proof {
            assert(keys@.take(i + 1) =~= keys@.take(i as int).push(id));
            assert(keys@.to_set().contains(id));
            assert forall|x: u16| x != id implies keys@.take(i + 1).contains(x) == keys@.take(
                i as int,
            ).contains(x) by {}
            assert(keys@.take(i + 1)[i as int] == id);
        }
        let elevator: &Elevator = statuses.get(&id).unwrap();
        if *elevator.get_dead_or_alive() == DeadOrAlive::Alive && *elevator.get_obstruction() == Obstruction::Clear {
            let cab = elevator.get_cab_orders();
            proof {
                assert forall|j: int| 0 <= j < cab@.len() implies #[trigger] cab@[j]@.floor < 4 by {
                    assert(e[id].cab_orders[j] == order_views(cab@)[j]);
                }
            }
            let cab_requests = cab_order_format_converter(cab);
            let state = ElevatorState::new(
                *elevator.get_behaviour(),
                *elevator.get_floor(),
                *elevator.get_direction(),
                cab_requests,
            );
            proof {
                assert(state_map_views(states@.insert(id, state)) =~= state_map_views(states@).insert(id, state@));
            }
            states.insert(id, state);
        }
        proof {
            assert(state_map_views(states@) =~= Map::new(
                |k: u16| keys@.take(i + 1).contains(k) && e.contains_key(k) && can_take_calls(e[k]),
                |k: u16| state_of(e[k]),
            ));
        }
        i += 1;
    }
    proof {
        assert(keys@.take(keys.len() as int) =~= keys@);
        assert forall|k: u16| keys@.contains(k) <==> e.contains_key(k) by {
            assert(keys@.to_set().contains(k) == keys@.contains(k));
        }
    }
    let confirmed = filtered_hall_orders(last_world_view);
    let queue = hall_order_format_converter(&confirmed);
    let input = Input::new(queue, states);
    assert(input@.states =~= assigner_input_spec(e, last_world_view@.hall.orders).states);
    input
}

/// Whether `c` is a decimal digit.
pub open spec fn is_digit(c: char) -> bool {
    '0' <= c && c <= '9'
}

/// The number that a sequence of decimal digits writes.
pub open spec fn decimal_value(digits: Seq<char>) -> nat
    decreases digits.len(),
{
    if digits.len() == 0 {
        0
    } else {
        decimal_value(digits.drop_last()) * 10 + (digits.last() as nat - '0' as nat) as nat
    }
}

/// The characters after an optional leading `+`.
pub open spec fn without_plus(s: Seq<char>) -> Seq<char> {
    if s.len() > 0 && s[0] == '+' {
        s.drop_first()
    } else {
        s
    }
}

/// Whether every character is a decimal digit.
pub open spec fn all_digits(d: Seq<char>) -> bool {
    forall|i: int| 0 <= i < d.len() ==> is_digit(#[trigger] d[i])
}

/// An elevator identifier written in decimal: an optional `+` and at least
/// one digit, for a number that fits in 16 bits.
pub open spec fn parse_decimal_u16(s: Seq<char>) -> Option<u16> {
    let digits = without_plus(s);
    if digits.len() > 0 && all_digits(digits) && decimal_value(digits) <= 0xffff {
        Some(decimal_value(digits) as u16)
    } else {
        None
    }
}

/// The character of the decimal digit `d`.
pub open spec fn digit_char(d: nat) -> char {
    (d + '0' as nat) as char
}

/// `n` written in decimal: its digits, most significant first, with no
/// leading zero (zero itself is the one digit `0`).
pub open spec fn decimal_digits(n: nat) -> Seq<char>
    decreases n,
{
    if n < 10 {
        seq![digit_char(n)]
    } else {
        decimal_digits(n / 10).push(digit_char(n % 10))
    }
}

/// The decimal digits of `n` are digits, at least one, with no sign in
/// front, and they write `n`.
pub proof fn lemma_decimal_digits(n: nat)
    ensures
        decimal_digits(n).len() > 0,
        all_digits(decimal_digits(n)),
        decimal_digits(n)[0] != '+',
        decimal_value(decimal_digits(n)) == n,
    decreases n,
{
    if n < 10 {
        let s = decimal_digits(n);
        assert(s.drop_last() =~= Seq::<char>::empty());
        assert(decimal_value(s.drop_last()) == 0);
    } else {
        lemma_decimal_digits(n / 10);
        let s = decimal_digits(n / 10);
        let t = decimal_digits(n);
        assert(t.drop_last() =~= s);
        assert(t[0] == s[0]);
        assert forall|i: int| 0 <= i < t.len() implies is_digit(#[trigger] t[i]) by {
            if i < s.len() {
                assert(t[i] == s[i]);
            }
        }
        vstd::arithmetic::div_mod::lemma_fundamental_div_mod(n as int, 10);
    }
}

/// Appending digits never makes the number smaller.
pub proof fn lemma_decimal_value_prefix(digits: Seq<char>, k: int)
    requires
        0 <= k <= digits.len(),
        forall|i: int| 0 <= i < digits.len() ==> is_digit(#[trigger] digits[i]),
    ensures
        decimal_value(digits.subrange(0, k)) <= decimal_value(digits),
    decreases digits.len() - k,
{
    if k < digits.len() {
        let longer = digits.subrange(0, k + 1);
        assert(longer.drop_last() =~= digits.subrange(0, k));
        assert(is_digit(digits[k]));
        lemma_decimal_value_prefix(digits, k + 1);
    } else {
        assert(digits.subrange(0, k) =~= digits);
    }
}

/// Reads an elevator identifier written in decimal (see
/// `parse_decimal_u16`).
pub fn parse_elevator_id(s: &str) -> (id: Option<u16>)
    ensures
        id == parse_decimal_u16(s@),
{
    if !s.is_ascii() {
        proof {
            let j = choose|j: int| 0 <= j < s@.len() && !('\0' <= #[trigger] s@[j] && s@[j] <= '\u{7f}');
            if s@.len() > 0 && s@[0] == '+' {
                assert(j != 0);
                let d = s@.drop_first();
                assert(d[j - 1] == s@[j]);
                assert(!is_digit(d[j - 1]));
                assert(!all_digits(d));
            } else {
                assert(!is_digit(s@[j]));
                assert(!all_digits(s@));
            }
            assert(parse_decimal_u16(s@) is None);
        }
        return None;
    }
    let b: &[u8] = s.as_bytes();
    proof {
        broadcast use vstd::string::is_ascii_spec_bytes;
        assert(b@.len() == s@.len());
        assert forall|i: int| 0 <= i < b@.len() implies b@[i] == s@[i] as u8 by {}
    }
    let ghost chars = s@;
    let mut start: usize = 0;
    if b.len() > 0 && b[0] == 43u8 {
        start = 1;
    }
    let ghost digits = without_plus(chars);
    proof {
        assert(vstd::utf8::is_ascii_chars(chars));
        if b.len() > 0 {
            assert(chars[0] <= '\u{7f}');
            assert((b@[0] == 43u8) == (chars[0] == '+'));
        }
        assert(digits =~= chars.subrange(start as int, chars.len() as int));
    }
    if start >= b.len() {
        return None;
    }
    let mut value: u32 = 0;
    let mut i: usize = start;
    while i < b.len()
        invariant
            start <= i <= b.len(),
            chars == s@,
            digits == without_plus(chars),
            b@.len() == chars.len(),
            forall|q: int| 0 <= q < b@.len() ==> b@[q] == chars[q] as u8,
            vstd::utf8::is_ascii_chars(chars),
            digits == chars.subrange(start as int, chars.len() as int),
            forall|q: int| start <= q < i ==> is_digit(#[trigger] chars[q]),
            value == decimal_value(chars.subrange(start as int, i as int)),
            value <= 0xffff,
        decreases b.len() - i,
    {
        let c = b[i];
        proof {
            assert(chars[i as int] <= '\u{7f}');
            assert((48u8 <= c && c <= 57u8) == is_digit(chars[i as int]));
        }
        if c < 48u8 || c > 57u8 {
            proof {
                assert(digits[i - start] == chars[i as int]);
                assert(!is_digit(digits[i - start]));
            }
            return None;
        }
        let ghost next = chars.subrange(start as int, i + 1);
        proof {
            assert(next.drop_last() =~= chars.subrange(start as int, i as int));
            assert(next.last() == chars[i as int]);
            assert(c as nat == chars[i as int] as nat);
        }
        value = value * 10 + (c - 48u8) as u32;
        assert(value == decimal_value(next));
        if value > 0xffff {
            proof {
                if all_digits(digits) {
                    assert(digits.subrange(0, i + 1 - start) =~= chars.subrange(start as int, i + 1));
                    lemma_decimal_value_prefix(digits, i + 1 - start);
                }
            }
            return None;
        }
        i += 1;
    }
    proof {
        assert(chars.subrange(start as int, b.len() as int) =~= digits);
        assert forall|q: int| 0 <= q < digits.len() implies is_digit(#[trigger] digits[q]) by {
            assert(digits[q] == chars[q + start]);
        }
    }
    Some(value as u16)
}

/// Whether a hall order is one the assigner means by a call at `floor` in
/// `direction`.
pub open spec fn answers_call(o: OrderView, floor: int, direction: OrderDirection) -> bool {
    o.floor == floor && o.order_type == OrderType::Hall && o.direction == direction
}

/// Whether `k` is the smallest identifier of an order answering that call.
pub open spec fn is_least_call_order(
    orders: Map<u16, OrderView>,
    floor: int,
    direction: OrderDirection,
    k: u16,
) -> bool {
    &&& orders.contains_key(k)
    &&& answers_call(orders[k], floor, direction)
    &&& forall|j: u16|
        #![trigger orders[j]]
        orders.contains_key(j) && answers_call(orders[j], floor, direction) ==> k <= j
}

/// Whether some order answers the call at `floor` in `direction`.
pub open spec fn has_call_order(orders: Map<u16, OrderView>, floor: int, direction: OrderDirection) -> bool {
    exists|k: u16| #![trigger orders[k]] orders.contains_key(k) && answers_call(orders[k], floor, direction)
}

/// The order with the smallest identifier answering the call at `floor` in
/// `direction` (meaningful when `has_call_order` holds).
pub open spec fn call_order(orders: Map<u16, OrderView>, floor: int, direction: OrderDirection) -> u16 {
    choose|k: u16| is_least_call_order(orders, floor, direction, k)
}

/// The orders the assigner hands one elevator: floor by floor, the order
/// answering the up call if the flag for it is set and there is such an
/// order, then likewise for the down call.
pub open spec fn orders_for_calls(entries: Seq<[bool; 3]>, orders: Map<u16, OrderView>) -> Seq<OrderView>
    decreases entries.len(),
{
    if entries.len() == 0 {
        Seq::empty()
    } else {
        let floor = entries.len() - 1;
        let prev = orders_for_calls(entries.drop_last(), orders);
        let e = entries.last();
        let with_up = if e@[0] && has_call_order(orders, floor, OrderDirection::Up) {
            prev.push(orders[call_order(orders, floor, OrderDirection::Up)])
        } else {
            prev
        };
        if e@[1] && has_call_order(orders, floor, OrderDirection::Down) {
            with_up.push(orders[call_order(orders, floor, OrderDirection::Down)])
        } else {
            with_up
        }
    }
}

/// The assigner's answer as plain values: per entry, the elevator name and
/// the flags of each floor.
pub open spec fn answer_views(pairs: Seq<(String, Vec<[bool; 3]>)>) -> Seq<(Seq<char>, Seq<[bool; 3]>)> {
    pairs.map_values(|p: (String, Vec<[bool; 3]>)| (p.0@, p.1@))
}

/// Whether every elevator name in the assigner's answer reads as an
/// identifier.
pub open spec fn all_ids_parse(pairs: Seq<(Seq<char>, Seq<[bool; 3]>)>) -> bool {
    forall|i: int| 0 <= i < pairs.len() ==> (#[trigger] parse_decimal_u16(pairs[i].0)) is Some
}

/// The orders handed to each elevator, in the order of the assigner's
/// answer; a later entry for the same identifier replaces an earlier one.
pub open spec fn assignment_table(
    pairs: Seq<(Seq<char>, Seq<[bool; 3]>)>,
    orders: Map<u16, OrderView>,
) -> Map<u16, Seq<OrderView>>
    decreases pairs.len(),
{
    if pairs.len() == 0 {
        Map::empty()
    } else {
        assignment_table(pairs.drop_last(), orders).insert(
            parse_decimal_u16(pairs.last().0)->0,
            orders_for_calls(pairs.last().1, orders),
        )
    }
}

/// The views of a map of order queues.
pub open spec fn queue_map_views(m: Map<u16, VecDeque<Order>>) -> Map<u16, Seq<OrderView>> {
    m.map_values(|q: VecDeque<Order>| order_views(q@))
}

/// The order with the smallest identifier answering the call at `floor` in
/// `direction`, if there is one.
fn find_call_order(orders: &HashMap<u16, Order>, floor: usize, direction: OrderDirection) -> (r: Option<u16>)
    ensures
        match r {
            Some(k) => k == call_order(order_map_views(orders@), floor as int, direction)
                && is_least_call_order(order_map_views(orders@), floor as int, direction, k)
                && has_call_order(order_map_views(orders@), floor as int, direction),
            None => !has_call_order(order_map_views(orders@), floor as int, direction),
        },
{
    let ghost m = order_map_views(orders@);
    let keys = map_keys(orders);
    let mut best: Option<u16> = None;
    let mut i: usize = 0;
    while i < keys.len()
        invariant
            i <= keys.len(),
            m == order_map_views(orders@),
            keys@.to_set() == orders@.dom(),
            match best {
                Some(b) => m.contains_key(b) && answers_call(m[b], floor as int, direction)
                    && forall|j: int| 0 <= j < i && answers_call(#[trigger] m[keys@[j]], floor as int, direction) ==> b <= keys@[j],
                None => forall|j: int| 0 <= j < i ==> !answers_call(#[trigger] m[keys@[j]], floor as int, direction),
            },
        decreases keys.len() - i,
    {
        let k = keys[i];
        assert(keys@.to_set().contains(k));
        let o = orders.get(&k).unwrap();
        assert(o@ == m[k]);
        if (*o.get_floor() as usize) == floor && *o.get_order_type() == OrderType::Hall && *o.get_direction() == direction {
            match best {
                Some(b) => {
                    if k < b {
                        best = Some(k);
                    }
                },
                None => {
                    best = Some(k);
                },
            }
        }
        i += 1;
    }
    match best {
        Some(b) => {
            proof {
                assert forall|j: u16| #![trigger m[j]] m.contains_key(j) && answers_call(m[j], floor as int, direction) implies b <= j by {
                    assert(keys@.to_set().contains(j));
                    let q = choose|q: int| 0 <= q < keys@.len() && keys@[q] == j;
                    assert(answers_call(m[keys@[q]], floor as int, direction));
                }
                assert(is_least_call_order(m, floor as int, direction, b));
                let c = call_order(m, floor as int, direction);
                assert(is_least_call_order(m, floor as int, direction, c));
                assert(c <= b && b <= c);
            }
            Some(b)
        },
        None => {
            proof {
                if has_call_order(m, floor as int, direction) {
                    let j = choose|k: u16| #![trigger m[k]] m.contains_key(k) && answers_call(m[k], floor as int, direction);
                    assert(keys@.to_set().contains(j));
                    let q = choose|q: int| 0 <= q < keys@.len() && keys@[q] == j;
                    assert(!answers_call(m[keys@[q]], floor as int, direction));
                }
            }
            None
        },
    }
}

/// The orders the assigner hands one elevator (see `orders_for_calls`).
fn orders_for_entries(entries: &Vec<[bool; 3]>, hall_order_map: &HashMap<u16, Order>) -> (assigned: VecDeque<Order>)
    ensures
        order_views(assigned@) == orders_for_calls(entries@, order_map_views(hall_order_map@)),
{
    let ghost m = order_map_views(hall_order_map@);
    let mut assigned_orders: VecDeque<Order> = VecDeque::new();
    let mut floor: usize = 0;
    while floor < entries.len()
        invariant
            floor <= entries.len(),
            m == order_map_views(hall_order_map@),
            order_views(assigned_orders@) == orders_for_calls(entries@.take(floor as int), m),
        decreases entries.len() - floor,
    {
        let entry = entries[floor];
        proof {
            assert(entries@.take(floor + 1).drop_last() =~= entries@.take(floor as int));
            assert(entries@.take(floor + 1).last() == entry);
        }
        if entry[0] == true {
            match find_call_order(hall_order_map, floor, OrderDirection::Up) {
                Some(k) => {
                    assert(hall_order_map@.contains_key(k));
                    let o = hall_order_map.get(&k).unwrap().clone();
                    proof {
                        crate::memory::elevator::lemma_order_views_push(assigned_orders@, o);
                    }
                    assigned_orders.push_back(o);
                },
                None => {},
            }
        }
        if entry[1] == true {
            match find_call_order(hall_order_map, floor, OrderDirection::Down) {
                Some(k) => {
                    assert(hall_order_map@.contains_key(k));
                    let o = hall_order_map.get(&k).unwrap().clone();
                    proof {
                        crate::memory::elevator::lemma_order_views_push(assigned_orders@, o);
                    }
                    assigned_orders.push_back(o);
                },
                None => {},
            }
        }
        floor += 1;
    }
    assert(entries@.take(entries.len() as int) =~= entries@);
    assigned_orders
}

/// The orders that the assigner's answer hands each elevator: each
/// elevator name is read as an identifier, and each set flag is matched
/// with a hall order (see `assignment_table`). When some name does not
/// read as an identifier, nothing is handed out.
pub fn assigner_output_to_assigned_orders(
    order_map: Vec<(String, Vec<[bool; 3]>)>,
    hall_order_map: &HashMap<u16, Order>,
) -> (assigned: HashMap<u16, VecDeque<Order>>)
    ensures
        queue_map_views(assigned@) == (if all_ids_parse(answer_views(order_map@)) {
            assignment_table(answer_views(order_map@), order_map_views(hall_order_map@))
        } else {
            Map::empty()
        }),
{
    let ghost m = order_map_views(hall_order_map@);
    let ghost av = answer_views(order_map@);
    let mut assigned_orders_by_id: HashMap<u16, VecDeque<Order>> = HashMap::new();
    let mut i: usize = 0;
    while i < order_map.len()
        invariant
            i <= order_map.len(),
            m == order_map_views(hall_order_map@),
            av == answer_views(order_map@),
            all_ids_parse(av.take(i as int)),
            queue_map_views(assigned_orders_by_id@) == assignment_table(av.take(i as int), m),
        decreases order_map.len() - i,
    {
        let ghost next = av.take(i + 1);
        proof {
            assert(next.drop_last() =~= av.take(i as int));
            assert(next.last() == av[i as int]);
            assert(av[i as int] == (order_map@[i as int].0@, order_map@[i as int].1@));
        }
        let id = match parse_elevator_id(order_map[i].0.as_str()) {
            Some(id) => id,
            None => {
                proof {
                    assert(!all_ids_parse(av)) by {
                        assert(parse_decimal_u16(av[i as int].0) is None);
                    }
                }
                let empty: HashMap<u16, VecDeque<Order>> = HashMap::new();
                assert(queue_map_views(empty@) =~= Map::empty());
                return empty;
            },
        };
        let assigned = orders_for_entries(&order_map[i].1, hall_order_map);
        proof {
            assert(queue_map_views(assigned_orders_by_id@.insert(id, assigned)) =~= queue_map_views(
                assigned_orders_by_id@,
            ).insert(id, order_views(assigned@)));
            assert forall|q: int| 0 <= q < next.len() implies (#[trigger] parse_decimal_u16(next[q].0)) is Some by {
                if q < i {
                    assert(next[q] == av.take(i as int)[q]);
                }
            }
        }
        assigned_orders_by_id.insert(id, assigned);
        i += 1;
    }
    assert(av.take(order_map.len() as int) =~= av);
    assigned_orders_by_id
}

/// What `serde_json::from_slice` makes of the bytes the assigner printed,
/// read as a JSON object from elevator names to lists of per-floor flag
/// triples: its entries in the order of their names, or none where the bytes
/// are not such an object.
pub uninterp spec fn assigner_answer(bytes: Seq<u8>) -> Option<Seq<(Seq<char>, Seq<[bool; 3]>)>>;

/// `serde_json::from_slice::<BTreeMap<String, Vec<[bool; 3]>>>`: the
/// assigner's answer, its entries in the order of their names (the order a
/// `BTreeMap` keeps, so the result depends on the bytes alone), or none where
/// serde_json refuses the bytes. Which bytes it accepts and what it reads
/// from them is named, not stated.
#[verifier::external_body]
fn parse_assigner_answer(bytes: &[u8]) -> (r: Option<Vec<(String, Vec<[bool; 3]>)>>)
    ensures
        (r is Some) == (assigner_answer(bytes@) is Some),
        r matches Some(v) ==> answer_views(v@) == assigner_answer(bytes@)->0,
{
    match serde_json::from_slice::<std::collections::BTreeMap<String, Vec<[bool; 3]>>>(bytes) {
        Ok(m) => Some(m.into_iter().collect()),
        Err(_) => None,
    }
}

/// The orders handed to each elevator, read from the bytes the assigner
/// printed: none where they are not an answer; else as
/// `assigner_output_to_assigned_orders` says of the entries read.
pub fn assigned_orders_from_answer(stdout: &[u8], hall_order_map: &HashMap<u16, Order>) -> (r: Option<
    HashMap<u16, VecDeque<Order>>,
>)
    ensures
        (r is Some) == (assigner_answer(stdout@) is Some),
        r matches Some(a) ==> queue_map_views(a@) == (if all_ids_parse(assigner_answer(stdout@)->0) {
            assignment_table(assigner_answer(stdout@)->0, order_map_views(hall_order_map@))
        } else {
            Map::empty()
        }),
{
    match parse_assigner_answer(stdout) {
        Some(pairs) => Some(assigner_output_to_assigned_orders(pairs, hall_order_map)),
        None => None,
    }
}

/// Whether two lists hold the same orders in the same order.
pub fn same_order_lists(a: &Vec<Order>, b: &Vec<Order>) -> (same: bool)
    ensures
        same == (order_views(a@) == order_views(b@)),
{
    if a.len() != b.len() {
        assert(order_views(a@).len() != order_views(b@).len());
        return false;
    }
    let mut i: usize = 0;
    while i < a.len()
        invariant
            i <= a.len(),
            a.len() == b.len(),
            forall|j: int| 0 <= j < i ==> #[trigger] order_views(a@)[j] == order_views(b@)[j],
        decreases a.len() - i,
    {
        if !a[i].same_as(&b[i]) {
            assert(order_views(a@)[i as int] != order_views(b@)[i as int]);
            return false;
        }
        i += 1;
    }
    assert(order_views(a@) =~= order_views(b@));
    true
}

/// Whether the decision thread hands this elevator's hall orders to the
/// hardware thread: unless the list it handed on last holds the same orders
/// in the same order.
pub fn should_send_orders(last_sent: &Option<Vec<Order>>, orders: &Vec<Order>) -> (send: bool)
    ensures
        send == (match *last_sent {
            Some(l) => order_views(l@) != order_views(orders@),
            None => true,
        }),
{
    match last_sent {
        Some(l) => !same_order_lists(l, orders),
        None => true,
    }
}

} // verus!
