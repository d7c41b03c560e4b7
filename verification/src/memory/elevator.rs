use std::collections::VecDeque;
use vstd::prelude::*;

use crate::memory::orders::{Order, OrderView};

verus! {

/// Whether the group currently counts an elevator as working.
#[derive(Clone, Copy, Debug, PartialEq, Eq, Structural)]
pub enum DeadOrAlive {
    Dead,
    Alive,
}

/// What the car is doing.
#[derive(Clone, Copy, Debug, PartialEq, Eq, Structural)]
pub enum Behaviour {
    Idle,
    Moving,
    DoorOpen,
}

/// Whether the door is blocked.
#[derive(Clone, Copy, Debug, PartialEq, Eq, Structural)]
pub enum Obstruction {
    Obstructed,
    Clear,
}

/// Direction of travel of the car.
#[derive(Clone, Copy, Debug, PartialEq, Eq, Structural)]
pub enum ElevatorDirection {
    Up,
    Down,
    Stop,
}

/// What an elevator's record is, as plain values.
pub struct ElevatorView {
    pub dead_or_alive: DeadOrAlive,
    pub elevator_id: u16,
    pub session_id: u16,
    pub behaviour: Behaviour,
    pub obstruction: Obstruction,
    pub floor: u8,
    pub direction: ElevatorDirection,
    /// Cab orders, oldest first.
    pub cab_orders: Seq<OrderView>,
}

/// The record of a freshly started elevator: alive, idle at floor 1 with the
/// door clear, standing still and without cab orders.
pub open spec fn fresh_elevator(elevator_id: u16, session_id: u16) -> ElevatorView {
    ElevatorView {
        dead_or_alive: DeadOrAlive::Alive,
        elevator_id,
        session_id,
        behaviour: Behaviour::Idle,
        obstruction: Obstruction::Clear,
        floor: 1,
        direction: ElevatorDirection::Stop,
        cab_orders: Seq::empty(),
    }
}

impl ElevatorView {
    /// The same record with other cab orders.
    pub open spec fn with_cab_orders(self, cab_orders: Seq<OrderView>) -> ElevatorView {
        ElevatorView { cab_orders, ..self }
    }
}

/// The views of a sequence of orders.
pub open spec fn order_views(orders: Seq<Order>) -> Seq<OrderView> {
    orders.map_values(|o: Order| o@)
}

/// Whether two queues hold the same orders in the same order.
pub fn same_order_queues(a: &VecDeque<Order>, b: &VecDeque<Order>) -> (same: bool)
    ensures
        same == (order_views(a@) == order_views(b@)),
{
    if a.len() != b.len() {
        assert(order_views(a@).len() != order_views(b@).len());
        return false;
    }
    let mut i: usize = 0;
    while i < a.len()
        invariant
            i <= a.len(),
            a.len() == b.len(),
            forall|j: int| 0 <= j < i ==> #[trigger] order_views(a@)[j] == order_views(b@)[j],
        decreases a.len() - i,
    {
        if !a[i].same_as(&b[i]) {
            assert(order_views(a@)[i as int] != order_views(b@)[i as int]);
            return false;
        }
        i += 1;
    }
    assert(order_views(a@) =~= order_views(b@));
    true
}

/// Viewing commutes with appending an order.
pub proof fn lemma_order_views_push(orders: Seq<Order>, o: Order)
    ensures
        order_views(orders.push(o)) == order_views(orders).push(o@),
{
    assert(order_views(orders.push(o)) =~= order_views(orders).push(o@));
}

/// Position of the first order with identifier `order_id`, if there is one.
pub open spec fn first_index(orders: Seq<OrderView>, order_id: u16) -> Option<int>
    decreases orders.len(),
{
    if orders.len() == 0 {
        None
    } else {
        match first_index(orders.drop_last(), order_id) {
            Some(i) => Some(i),
            None => if orders.last().order_id == order_id {
                Some(orders.len() - 1)
            } else {
                None
            },
        }
    }
}

/// The first index of an identifier holds it, and no earlier position
/// does; without one, no position does.
pub proof fn lemma_first_index(orders: Seq<OrderView>, order_id: u16)
    ensures
        match first_index(orders, order_id) {
            Some(i) => 0 <= i < orders.len() && orders[i].order_id == order_id && forall|j: int|
                0 <= j < i ==> orders[j].order_id != order_id,
            None => forall|j: int| 0 <= j < orders.len() ==> orders[j].order_id != order_id,
        },
    decreases orders.len(),
{
    if orders.len() > 0 {
        let d = orders.drop_last();
        lemma_first_index(d, order_id);
        assert forall|j: int| 0 <= j < d.len() implies d[j] == orders[j] by {}
    }
}

/// The first index only depends on the identifiers of the orders.
pub proof fn lemma_first_index_same_ids(a: Seq<OrderView>, b: Seq<OrderView>, order_id: u16)
    requires
        a.len() == b.len(),
        forall|j: int| 0 <= j < a.len() ==> a[j].order_id == b[j].order_id,
    ensures
        first_index(a, order_id) == first_index(b, order_id),
    decreases a.len(),
{
    if a.len() > 0 {
        lemma_first_index_same_ids(a.drop_last(), b.drop_last(), order_id);
    }
}

/// Position of the first order in `orders` with identifier `order_id`.
pub fn find_order(orders: &VecDeque<Order>, order_id: u16) -> (r: Option<usize>)
    ensures
        match r {
            Some(i) => i < orders.len() && first_index(order_views(orders@), order_id) == Some(
                i as int,
            ),
            None => first_index(order_views(orders@), order_id) is None,
        },
{
    let ghost views = order_views(orders@);
    let mut i: usize = 0;
    while i < orders.len()
        invariant
            i <= orders.len(),
            views == order_views(orders@),
            first_index(views.take(i as int), order_id) is None,
        decreases orders.len() - i,
    {
        proof {
            assert(views.take(i + 1).drop_last() =~= views.take(i as int));
        }
        if *orders[i].get_order_id() == order_id {
            proof {
                assert(first_index(views.take(i + 1), order_id) == Some(i as int));
                lemma_first_index(views.take(i + 1), order_id);
                lemma_first_index(views, order_id);
                lemma_first_index_prefix(views, i + 1, order_id);
            }
            return Some(i);
        }
        i += 1;
    }
    assert(views.take(orders.len() as int) =~= views);
    None
}

/// A first index found in a prefix is the first index of the whole sequence.
pub proof fn lemma_first_index_prefix(orders: Seq<OrderView>, n: int, order_id: u16)
    requires
        0 <= n <= orders.len(),
        first_index(orders.take(n), order_id) is Some,
    ensures
        first_index(orders, order_id) == first_index(orders.take(n), order_id),
    decreases orders.len() - n,
{
    if n < orders.len() {
        assert(orders.take(n + 1).drop_last() =~= orders.take(n));
        lemma_first_index_prefix(orders, n + 1, order_id);
    } else {
        assert(orders.take(n) =~= orders);
    }
}

/// Replaces the order at position `i`.
pub fn replace_order_at(orders: &mut VecDeque<Order>, i: usize, o: Order)
    requires
        i < old(orders).len(),
    ensures
        order_views(final(orders)@) == order_views(old(orders)@).update(i as int, o@),
{
    let _ = orders.remove(i);
    orders.insert(i, o);
    assert(order_views(orders@) =~= order_views(old(orders)@).update(i as int, o@));
}

/// One elevator's record in the shared state: liveness, car state and its
/// queue of cab orders.
#[derive(Debug, PartialEq, Eq)]
pub struct Elevator {
    dead_or_alive: DeadOrAlive,
    elevator_id: u16,
    session_id: u16,
    behaviour: Behaviour,
    obstruction: Obstruction,
    floor: u8,
    direction: ElevatorDirection,
    cab_orders: VecDeque<Order>,
}

impl View for Elevator {
    type V = ElevatorView;

    closed spec fn view(&self) -> ElevatorView {
        ElevatorView {
            dead_or_alive: self.dead_or_alive,
            elevator_id: self.elevator_id,
            session_id: self.session_id,
            behaviour: self.behaviour,
            obstruction: self.obstruction,
            floor: self.floor,
            direction: self.direction,
            cab_orders: order_views(self.cab_orders@),
        }
    }
}

/// A copy of a queue of orders.
pub fn clone_orders(orders: &VecDeque<Order>) -> (res: VecDeque<Order>)
    ensures
        order_views(res@) == order_views(orders@),
{
    let mut res: VecDeque<Order> = VecDeque::new();
    let mut i: usize = 0;
    while i < orders.len()
        invariant
            i <= orders.len(),
            order_views(res@) == order_views(orders@.take(i as int)),
        decreases orders.len() - i,
    {
        let o = orders[i].clone();
        proof {
            lemma_order_views_push(res@, o);
            lemma_order_views_push(orders@.take(i as int), orders@[i as int]);
            assert(orders@.take(i + 1) =~= orders@.take(i as int).push(orders@[i as int]));
        }
        res.push_back(o);
        i += 1;
    }
    assert(orders@.take(orders.len() as int) =~= orders@);
    res
}

impl Clone for Elevator {
    fn clone(&self) -> (res: Self)
        ensures
            res@ == self@,
    {
        Elevator {
            dead_or_alive: self.dead_or_alive,
            elevator_id: self.elevator_id,
            session_id: self.session_id,
            behaviour: self.behaviour,
            obstruction: self.obstruction,
            floor: self.floor,
            direction: self.direction,
            cab_orders: clone_orders(&self.cab_orders),
        }
    }
}

impl Elevator {
    /// A live, idle elevator at floor 1 with a clear door and no cab orders.
    pub fn new(elevator_id: u16, session_id: u16) -> (e: Self)
        ensures
            e@ == fresh_elevator(elevator_id, session_id),
    {
        let e = Elevator {
            dead_or_alive: DeadOrAlive::Alive,
            elevator_id,
            session_id,
            behaviour: Behaviour::Idle,
            obstruction: Obstruction::Clear,
            floor: 1,
            direction: ElevatorDirection::Stop,
            cab_orders: VecDeque::new(),
        };
        assert(e@.cab_orders =~= Seq::empty());
        e
    }

    /// An elevator record with every part given.
    pub fn from_parts(
        dead_or_alive: DeadOrAlive,
        elevator_id: u16,
        session_id: u16,
        behaviour: Behaviour,
        obstruction: Obstruction,
        floor: u8,
        direction: ElevatorDirection,
        cab_orders: VecDeque<Order>,
    ) -> (e: Self)
        ensures
            e@ == (ElevatorView {
                dead_or_alive,
                elevator_id,
                session_id,
                behaviour,
                obstruction,
                floor,
                direction,
                cab_orders: order_views(cab_orders@),
            }),
    {
        Elevator {
            dead_or_alive,
            elevator_id,
            session_id,
            behaviour,
            obstruction,
            floor,
            direction,
            cab_orders,
        }
    }

    pub fn get_dead_or_alive(&self) -> (r: &DeadOrAlive)
        ensures
            *r == self@.dead_or_alive,
    {
        &self.dead_or_alive
    }

    pub fn set_dead_or_alive(&mut self, status: DeadOrAlive)
        ensures
            final(self)@ == (ElevatorView { dead_or_alive: status, ..old(self)@ }),
    {
        self.dead_or_alive = status
    }

    pub fn get_elevator_id(&self) -> (r: &u16)
        ensures
            *r == self@.elevator_id,
    {
        &self.elevator_id
    }

    pub fn get_session_id(&self) -> (r: &u16)
        ensures
            *r == self@.session_id,
    {
        &self.session_id
    }

    pub fn get_behaviour(&self) -> (r: &Behaviour)
        ensures
            *r == self@.behaviour,
    {
        &self.behaviour
    }

    pub fn set_behavior(&mut self, behaviour: Behaviour)
        ensures
            final(self)@ == (ElevatorView { behaviour, ..old(self)@ }),
    {
        self.behaviour = behaviour
    }

    pub fn get_obstruction(&self) -> (r: &Obstruction)
        ensures
            *r == self@.obstruction,
    {
        &self.obstruction
    }

    pub fn set_obstruction(&mut self, obstruction: Obstruction)
        ensures
            final(self)@ == (ElevatorView { obstruction, ..old(self)@ }),
    {
        self.obstruction = obstruction
    }

    pub fn get_floor(&self) -> (r: &u8)
        ensures
            *r == self@.floor,
    {
        &self.floor
    }

    pub fn set_floor(&mut self, floor: u8)
        ensures
            final(self)@ == (ElevatorView { floor, ..old(self)@ }),
    {
        self.floor = floor;
    }

    pub fn get_direction(&self) -> (r: &ElevatorDirection)
        ensures
            *r == self@.direction,
    {
        &self.direction
    }

    pub fn set_direction(&mut self, dir: ElevatorDirection)
        ensures
            final(self)@ == (ElevatorView { direction: dir, ..old(self)@ }),
    {
        self.direction = dir;
    }

    pub fn get_cab_orders(&self) -> (r: &VecDeque<Order>)
        ensures
            order_views(r@) == self@.cab_orders,
    {
        &self.cab_orders
    }

    pub fn get_mut_cab_orders(&mut self) -> (r: &mut VecDeque<Order>)
        ensures
            order_views(r@) == old(self)@.cab_orders,
            final(self)@ == old(self)@.with_cab_orders(order_views(final(r)@)),
    {
        &mut self.cab_orders
    }

    pub fn set_cab_orders(&mut self, orders: VecDeque<Order>)
        ensures
            final(self)@ == old(self)@.with_cab_orders(order_views(orders@)),
    {
        self.cab_orders = orders;
    }

    /// Appends a cab order at the back of the queue.
    pub fn add_cab_order(&mut self, order: Order)
        ensures
            final(self)@ == old(self)@.with_cab_orders(old(self)@.cab_orders.push(order@)),
    {
        proof {
            lemma_order_views_push(self.cab_orders@, order);
        }
        self.cab_orders.push_back(order);
    }

    /// Drops the oldest cab order, if there is one.
    pub fn remove_cab_order(&mut self)
        ensures
            final(self)@ == old(self)@.with_cab_orders(
                if old(self)@.cab_orders.len() == 0 {
                    old(self)@.cab_orders
                } else {
                    old(self)@.cab_orders.drop_first()
                },
            ),
    {
        let _ = self.cab_orders.pop_front();
        assert(order_views(self.cab_orders@) =~= (if old(self)@.cab_orders.len() == 0 {
            old(self)@.cab_orders
        } else {
            old(self)@.cab_orders.drop_first()
        }));
    }
}

impl Elevator {
    /// Whether the two records agree in every part, cab orders included.
    pub fn same_as(&self, other: &Elevator) -> (same: bool)
        ensures
            same == (self@ == other@),
    {
        self.dead_or_alive == other.dead_or_alive && self.elevator_id == other.elevator_id
            && self.session_id == other.session_id && self.behaviour == other.behaviour
            && self.obstruction == other.obstruction && self.floor == other.floor
            && self.direction == other.direction && same_order_queues(&self.cab_orders, &other.cab_orders)
    }
}

} // verus!
