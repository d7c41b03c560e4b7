use vstd::prelude::*;

verus! {

/// Whether an order was placed from inside a car or from a landing.
#[derive(Clone, Copy, Debug, PartialEq, Eq, Structural)]
pub enum OrderType {
    Cab,
    Hall,
}

/// Direction asked for by a hall call.
#[derive(Clone, Copy, Debug, PartialEq, Eq, Structural)]
pub enum OrderDirection {
    Up,
    Down,
}

/// Life cycle of an order, in the order in which an order goes through it.
#[derive(Clone, Copy, Debug, PartialEq, Eq, Structural)]
pub enum OrderStatus {
    Unconfirmed,
    Confirmed,
    Completed,
    ReadyForDeletion,
}

/// Position of a status in the life cycle of an order.
pub open spec fn status_rank(status: OrderStatus) -> nat {
    match status {
        OrderStatus::Unconfirmed => 0,
        OrderStatus::Confirmed => 1,
        OrderStatus::Completed => 2,
        OrderStatus::ReadyForDeletion => 3,
    }
}

/// Position of a status in the life cycle of an order: a later status has a
/// larger rank.
pub fn order_status_rank(status: &OrderStatus) -> (rank: u8)
    ensures
        rank == status_rank(*status),
{
    match status {
        OrderStatus::Unconfirmed => 0,
        OrderStatus::Confirmed => 1,
        OrderStatus::Completed => 2,
        OrderStatus::ReadyForDeletion => 3,
    }
}


impl OrderType {
    /// The order type of a call button: the cab button (number 2) places a
    /// cab order, every other button a hall order.
    pub fn is_cab(call: u8) -> (t: OrderType)
        ensures
            t == (if call == 2 { OrderType::Cab } else { OrderType::Hall }),
    {
        if call == 2 {
            OrderType::Cab
        } else {
            OrderType::Hall
        }
    }
}

impl OrderDirection {
    /// The direction of a call button: the hall-up button (number 0) asks for
    /// `Up`, every other button for `Down`.
    pub fn dir_from_call(call: u8) -> (d: OrderDirection)
        ensures
            d == (if call == 0 { OrderDirection::Up } else { OrderDirection::Down }),
    {
        if call == 0 {
            OrderDirection::Up
        } else {
            OrderDirection::Down
        }
    }
}

/// What an order is, as plain values.
pub struct OrderView {
    pub order_id: u16,
    pub floor: u8,
    pub order_type: OrderType,
    pub direction: OrderDirection,
    pub order_status: OrderStatus,
    /// Elevators that have acknowledged the current status, in the order
    /// in which they were recorded; an elevator may occur more than once.
    pub ack_barrier: Seq<u16>,
}

impl OrderView {
    /// The same order with another status.
    pub open spec fn with_status(self, status: OrderStatus) -> OrderView {
        OrderView { order_status: status, ..self }
    }

    /// The same order with another acknowledgement barrier.
    pub open spec fn with_barrier(self, barrier: Seq<u16>) -> OrderView {
        OrderView { ack_barrier: barrier, ..self }
    }

    /// The same order with `id` in its barrier: added at the end unless it is
    /// there already.
    pub open spec fn with_ack(self, id: u16) -> OrderView {
        if self.ack_barrier.contains(id) {
            self
        } else {
            self.with_barrier(self.ack_barrier.push(id))
        }
    }

    /// Number of distinct elevators in the acknowledgement barrier.
    pub open spec fn unique_acks(self) -> nat {
        self.ack_barrier.to_set().len()
    }
}

/// A cab or hall call, with the elevators that have acknowledged its status.
#[derive(Debug, PartialEq, Eq)]
pub struct Order {
    order_id: u16,
    floor: u8,
    order_type: OrderType,
    direction: OrderDirection,
    order_status: OrderStatus,
    ack_barrier: Vec<u16>,
}

impl View for Order {
    type V = OrderView;

    closed spec fn view(&self) -> OrderView {
        OrderView {
            order_id: self.order_id,
            floor: self.floor,
            order_type: self.order_type,
            direction: self.direction,
            order_status: self.order_status,
            ack_barrier: self.ack_barrier@,
        }
    }
}

impl Clone for Order {
    fn clone(&self) -> (res: Self)
        ensures
            res@ == self@,
    {
        let barrier = self.ack_barrier.clone();
        assert(barrier@ =~= self.ack_barrier@);
        Order {
            order_id: self.order_id,
            floor: self.floor,
            order_type: self.order_type,
            direction: self.direction,
            order_status: self.order_status,
            ack_barrier: barrier,
        }
    }
}

/// `rand::random::<u16>()`: a draw from the thread-local random number
/// generator. Nothing is claimed of the number it gives; two draws may be
/// equal or not.
#[verifier::external_body]
pub(crate) fn random_order_id() -> (id: u16) {
    rand::random::<u16>()
}

impl Order {
    /// A new unconfirmed order with an empty barrier and a random identifier.
    pub fn new(floor: u8, order_type: OrderType, direction: OrderDirection) -> (order: Self)
        ensures
            order@.floor == floor,
            order@.order_type == order_type,
            order@.direction == direction,
            order@.order_status == OrderStatus::Unconfirmed,
            order@.ack_barrier == Seq::<u16>::empty(),
    {
        let order_id = random_order_id();
        Self::new_with_id(order_id, floor, order_type, direction)
    }

    /// A new unconfirmed order with an empty barrier and the given identifier.
    pub fn new_with_id(order_id: u16, floor: u8, order_type: OrderType, direction: OrderDirection) -> (order: Self)
        ensures
            order@ == (OrderView {
                order_id,
                floor,
                order_type,
                direction,
                order_status: OrderStatus::Unconfirmed,
                ack_barrier: Seq::<u16>::empty(),
            }),
    {
        Order {
            order_id,
            floor,
            order_type,
            direction,
            order_status: OrderStatus::Unconfirmed,
            ack_barrier: Vec::new(),
        }
    }

    /// An order with every part given.
    pub fn from_parts(
        order_id: u16,
        floor: u8,
        order_type: OrderType,
        direction: OrderDirection,
        order_status: OrderStatus,
        ack_barrier: Vec<u16>,
    ) -> (order: Self)
        ensures
            order@ == (OrderView {
                order_id,
                floor,
                order_type,
                direction,
                order_status,
                ack_barrier: ack_barrier@,
            }),
    {
        Order { order_id, floor, order_type, direction, order_status, ack_barrier }
    }

    pub fn get_order_id(&self) -> (id: &u16)
        ensures
            *id == self@.order_id,
    {
        &self.order_id
    }

    pub fn get_floor(&self) -> (floor: &u8)
        ensures
            *floor == self@.floor,
    {
        &self.floor
    }

    pub fn get_order_type(&self) -> (order_type: &OrderType)
        ensures
            *order_type == self@.order_type,
    {
        &self.order_type
    }

    pub fn get_direction(&self) -> (direction: &OrderDirection)
        ensures
            *direction == self@.direction,
    {
        &self.direction
    }

    pub fn get_order_status(&self) -> (status: &OrderStatus)
        ensures
            *status == self@.order_status,
    {
        &self.order_status
    }

    pub fn set_order_status(&mut self, status: OrderStatus)
        ensures
            final(self)@ == old(self)@.with_status(status),
    {
        self.order_status = status;
    }

    pub fn get_ack_barrier(&self) -> (barrier: &Vec<u16>)
        ensures
            barrier@ == self@.ack_barrier,
    {
        &self.ack_barrier
    }

    pub fn get_mut_ack_barrier(&mut self) -> (barrier: &mut Vec<u16>)
        ensures
            barrier@ == old(self)@.ack_barrier,
            final(self)@ == old(self)@.with_barrier(final(barrier)@),
    {
        &mut self.ack_barrier
    }

    pub fn set_ack_barrier(&mut self, barrier: Vec<u16>)
        ensures
            final(self)@ == old(self)@.with_barrier(barrier@),
    {
        self.ack_barrier = barrier;
    }

    /// Records an acknowledgement by `elevator_id` at the end of the barrier,
    /// whether or not it is there already.
    pub fn insert_into_ack_barrier(&mut self, elevator_id: u16)
        ensures
            final(self)@ == old(self)@.with_barrier(old(self)@.ack_barrier.push(elevator_id)),
    {
        self.ack_barrier.push(elevator_id);
    }
}


/// `barrier` followed by the elevators of `incoming` that it does not hold
/// yet, each added once, in the order of their first occurrence in `incoming`.
pub open spec fn merge_barrier(barrier: Seq<u16>, incoming: Seq<u16>) -> Seq<u16>
    decreases incoming.len(),
{
    if incoming.len() == 0 {
        barrier
    } else {
        let merged = merge_barrier(barrier, incoming.drop_last());
        if merged.contains(incoming.last()) {
            merged
        } else {
            merged.push(incoming.last())
        }
    }
}

/// Merging acknowledgements gives the union of the two sets of elevators,
/// and keeps the barrier it started from as a prefix.
pub proof fn lemma_merge_barrier_union(barrier: Seq<u16>, incoming: Seq<u16>)
    ensures
        merge_barrier(barrier, incoming).to_set() == barrier.to_set() + incoming.to_set(),
        barrier.is_prefix_of(merge_barrier(barrier, incoming)),
    decreases incoming.len(),
{
    if incoming.len() == 0 {
        assert(incoming.to_set() =~= Set::empty());
        assert(barrier.to_set() + incoming.to_set() =~= barrier.to_set());
    } else {
        let rest = incoming.drop_last();
        let x = incoming.last();
        lemma_merge_barrier_union(barrier, rest);
        let merged = merge_barrier(barrier, rest);
        assert(incoming =~= rest.push(x));
        rest.lemma_push_to_set_commute(x);
        merged.lemma_push_to_set_commute(x);
        if merged.contains(x) {
            assert(merged.to_set().contains(x));
        }
        assert(merge_barrier(barrier, incoming).to_set() =~= barrier.to_set() + incoming.to_set());
    }
}

/// Whether `id` occurs in `ids`.
pub fn contains_id(ids: &Vec<u16>, id: u16) -> (found: bool)
    ensures
        found == ids@.contains(id),
{
    let mut i: usize = 0;
    while i < ids.len()
        invariant
            i <= ids.len(),
            forall|j: int| 0 <= j < i ==> ids@[j] != id,
        decreases ids.len() - i,
    {
        if ids[i] == id {
            assert(ids@[i as int] == id);
            return true;
        }
        i += 1;
    }
    false
}

/// Number of distinct elevators in an acknowledgement barrier.
pub fn unique_ack_count(barrier: &Vec<u16>) -> (n: usize)
    ensures
        n == barrier@.to_set().len(),
{
    let mut seen: Vec<u16> = Vec::new();
    let mut i: usize = 0;
    assert(barrier@.take(0).to_set() =~= seen@.to_set());
    while i < barrier.len()
        invariant
            i <= barrier.len(),
            seen.len() <= i,
            seen@.no_duplicates(),
            seen@.to_set() == barrier@.take(i as int).to_set(),
        decreases barrier.len() - i,
    {
        let x = barrier[i];
        let ghost before = seen@;
        proof {
            assert(barrier@.take(i + 1) =~= barrier@.take(i as int).push(x));
            barrier@.take(i as int).lemma_push_to_set_commute(x);
        }
        if !contains_id(&seen, x) {
            seen.push(x);
            proof {
                before.lemma_push_to_set_commute(x);
            }
        } else {
            assert(before.to_set().contains(x));
            assert(before.to_set().insert(x) =~= before.to_set());
        }
        i += 1;
    }
    proof {
        seen@.unique_seq_to_set();
        assert(barrier@.take(barrier.len() as int) =~= barrier@);
    }
    seen.len()
}

impl Order {
    /// Adds to the barrier each elevator of `incoming` that it does not hold
    /// yet.
    pub fn merge_ack_barrier(&mut self, incoming: &Vec<u16>)
        ensures
            final(self)@ == old(self)@.with_barrier(merge_barrier(old(self)@.ack_barrier, incoming@)),
    {
        let mut i: usize = 0;
        while i < incoming.len()
            invariant
                i <= incoming.len(),
                self@ == old(self)@.with_barrier(
                    merge_barrier(old(self)@.ack_barrier, incoming@.take(i as int)),
                ),
            decreases incoming.len() - i,
        {
            let id = incoming[i];
            proof {
                let t = incoming@.take(i + 1);
                assert(t.drop_last() =~= incoming@.take(i as int));
                assert(t.last() == id);
            }
            if !contains_id(&self.ack_barrier, id) {
                self.ack_barrier.push(id);
            }
            i += 1;
        }
        assert(incoming@.take(incoming.len() as int) =~= incoming@);
    }

    /// Records an acknowledgement by `elevator_id` unless the barrier holds
    /// one already.
    pub fn acknowledge(&mut self, elevator_id: u16)
        ensures
            final(self)@ == old(self)@.with_ack(elevator_id),
    {
        if !contains_id(&self.ack_barrier, elevator_id) {
            self.ack_barrier.push(elevator_id);
        }
    }

    /// Whether the two orders agree in every part, barrier included.
    pub fn same_as(&self, other: &Order) -> (same: bool)
        ensures
            same == (self@ == other@),
    {
        if self.order_id != other.order_id || self.floor != other.floor
            || self.order_type != other.order_type || self.direction != other.direction
            || self.order_status != other.order_status
            || self.ack_barrier.len() != other.ack_barrier.len() {
            return false;
        }
        let mut i: usize = 0;
        while i < self.ack_barrier.len()
            invariant
                i <= self.ack_barrier.len(),
                self.ack_barrier.len() == other.ack_barrier.len(),
                forall|j: int| 0 <= j < i ==> self.ack_barrier@[j] == other.ack_barrier@[j],
            decreases self.ack_barrier.len() - i,
        {
            if self.ack_barrier[i] != other.ack_barrier[i] {
                return false;
            }
            i += 1;
        }
        assert(self.ack_barrier@ =~= other.ack_barrier@);
        true
    }

    /// Number of distinct elevators that have acknowledged the order.
    pub fn unique_acks(&self) -> (n: usize)
        ensures
            n == self@.unique_acks(),
    {
        unique_ack_count(&self.ack_barrier)
    }
}

} // verus!
