use std::collections::HashMap;
use vstd::prelude::*;

use crate::collections::{map_get_mut, map_keys};
use crate::memory::orders::{contains_id, Order, OrderStatus, OrderView};

verus! {

broadcast use vstd::std_specs::hash::group_hash_axioms;

/// The views of a map of orders.
pub open spec fn order_map_views(m: Map<u16, Order>) -> Map<u16, OrderView> {
    m.map_values(|o: Order| o@)
}

/// Viewing commutes with filing an order.
pub proof fn lemma_order_map_views_insert(m: Map<u16, Order>, k: u16, o: Order)
    ensures
        order_map_views(m.insert(k, o)) == order_map_views(m).insert(k, o@),
{
    assert(order_map_views(m.insert(k, o)) =~= order_map_views(m).insert(k, o@));
}

/// Viewing commutes with filing any order under any key.
pub proof fn lemma_order_map_views_insert_any(m: Map<u16, Order>)
    ensures
        forall|k: u16, o: Order|
            #[trigger] order_map_views(m.insert(k, o)) == order_map_views(m).insert(k, o@),
{
    assert forall|k: u16, o: Order|
        #[trigger] order_map_views(m.insert(k, o)) == order_map_views(m).insert(k, o@) by {
        lemma_order_map_views_insert(m, k, o);
    }
}

/// Viewing commutes with dropping an order.
pub proof fn lemma_order_map_views_remove(m: Map<u16, Order>, k: u16)
    ensures
        order_map_views(m.remove(k)) == order_map_views(m).remove(k),
{
    assert(order_map_views(m.remove(k)) =~= order_map_views(m).remove(k));
}

/// Every order is filed under its own identifier.
pub open spec fn keyed_by_id(orders: Map<u16, OrderView>) -> bool {
    forall|k: u16| #[trigger] orders.contains_key(k) ==> orders[k].order_id == k
}

/// Whether every one of `n` elevators has acknowledged the order.
pub open spec fn fully_acknowledged(o: OrderView, n: nat) -> bool {
    o.unique_acks() == n
}

/// What the status manager makes of one order when `n` elevators take part:
/// a fully acknowledged unconfirmed order becomes confirmed, a fully
/// acknowledged completed order becomes ready for deletion, each with an
/// emptied barrier; any other order stays as it is.
pub open spec fn status_step(o: OrderView, n: nat) -> OrderView {
    if fully_acknowledged(o, n) && o.order_status == OrderStatus::Unconfirmed {
        o.with_status(OrderStatus::Confirmed).with_barrier(Seq::empty())
    } else if fully_acknowledged(o, n) && o.order_status == OrderStatus::Completed {
        o.with_status(OrderStatus::ReadyForDeletion).with_barrier(Seq::empty())
    } else {
        o
    }
}

/// An order that every one of `n` elevators has acknowledged as ready for
/// deletion, and that the status manager therefore drops.
pub open spec fn ready_for_removal(o: OrderView, n: nat) -> bool {
    fully_acknowledged(o, n) && o.order_status == OrderStatus::ReadyForDeletion
}

/// The orders after one pass of the status manager.
pub open spec fn managed_orders(orders: Map<u16, OrderView>, n: nat) -> Map<u16, OrderView> {
    Map::new(
        |k: u16| orders.contains_key(k) && !ready_for_removal(orders[k], n),
        |k: u16| status_step(orders[k], n),
    )
}

/// The identifiers that one pass of the status manager drops.
pub open spec fn removed_ids(orders: Map<u16, OrderView>, n: nat) -> Set<u16> {
    Set::new(|k: u16| orders.contains_key(k) && ready_for_removal(orders[k], n))
}

/// What the hall order queue holds, as plain values.
pub struct HallOrderQueueView {
    pub orders: Map<u16, OrderView>,
    /// Orders dropped by the status manager since the last clean-up; while an
    /// identifier is here, copies of the order from other elevators are not
    /// taken in again.
    pub pending_cleanup: Set<u16>,
}

/// The hall orders known to this elevator, filed by identifier.
#[derive(Debug, PartialEq, Eq)]
pub struct HallOrderQueue {
    hall_order_queue: HashMap<u16, Order>,
    pending_cleanup: Vec<u16>,
}

impl View for HallOrderQueue {
    type V = HallOrderQueueView;

    closed spec fn view(&self) -> HallOrderQueueView {
        HallOrderQueueView {
            orders: order_map_views(self.hall_order_queue@),
            pending_cleanup: self.pending_cleanup@.to_set(),
        }
    }
}

impl Clone for HallOrderQueue {
    fn clone(&self) -> (res: Self)
        ensures
            res@ == self@,
    {
        HallOrderQueue {
            hall_order_queue: self.hall_order_queue.clone(),
            pending_cleanup: self.pending_cleanup.clone(),
        }
    }
}

impl HallOrderQueue {
    /// An empty queue with nothing pending.
    pub fn new() -> (q: Self)
        ensures
            q@.orders == Map::<u16, OrderView>::empty(),
            q@.pending_cleanup == Set::<u16>::empty(),
    {
        let q = HallOrderQueue { hall_order_queue: HashMap::new(), pending_cleanup: Vec::new() };
        assert(q@.orders =~= Map::<u16, OrderView>::empty());
        assert(q@.pending_cleanup =~= Set::<u16>::empty());
        q
    }

    /// A queue with the given orders and pending identifiers.
    pub fn from_parts(orders: HashMap<u16, Order>, pending_cleanup: Vec<u16>) -> (q: Self)
        ensures
            q@.orders == order_map_views(orders@),
            q@.pending_cleanup == pending_cleanup@.to_set(),
    {
        HallOrderQueue { hall_order_queue: orders, pending_cleanup }
    }

    pub fn get_order_queue(&self) -> (m: &HashMap<u16, Order>)
        ensures
            order_map_views(m@) == self@.orders,
    {
        &self.hall_order_queue
    }

    pub fn get_mut_hall_order_queue(&mut self) -> (m: &mut HashMap<u16, Order>)
        ensures
            order_map_views(m@) == old(self)@.orders,
            final(self)@ == (HallOrderQueueView {
                orders: order_map_views(final(m)@),
                pending_cleanup: old(self)@.pending_cleanup,
            }),
    {
        &mut self.hall_order_queue
    }

    pub fn get_pending_cleanup(&self) -> (s: &Vec<u16>)
        ensures
            s@.to_set() == self@.pending_cleanup,
    {
        &self.pending_cleanup
    }

    pub fn get_mut_pending_cleanup(&mut self) -> (s: &mut Vec<u16>)
        ensures
            s@.to_set() == old(self)@.pending_cleanup,
            final(self)@ == (HallOrderQueueView {
                orders: old(self)@.orders,
                pending_cleanup: final(s)@.to_set(),
            }),
    {
        &mut self.pending_cleanup
    }

    /// Whether every order is filed under its own identifier.
    pub fn is_keyed_by_id(&self) -> (ok: bool)
        ensures
            ok == keyed_by_id(self@.orders),
    {
        let keys = map_keys(&self.hall_order_queue);
        let mut i: usize = 0;
        while i < keys.len()
            invariant
                i <= keys.len(),
                keys@.to_set() == self@.orders.dom(),
                forall|j: int| 0 <= j < i ==> (#[trigger] self@.orders[keys@[j]]).order_id == keys@[j],
            decreases keys.len() - i,
        {
            let k = keys[i];
            assert(keys@.to_set().contains(k));
            let o = self.hall_order_queue.get(&k).unwrap();
            if *o.get_order_id() != k {
                return false;
            }
            i += 1;
        }
        assert forall|k: u16| #[trigger] self@.orders.contains_key(k) implies self@.orders[k].order_id == k by {
            assert(keys@.to_set().contains(k));
            let j = choose|j: int| 0 <= j < keys@.len() && keys@[j] == k;
            assert(self@.orders[keys@[j]].order_id == keys@[j]);
        }
        true
    }

    /// The order filed under `order_id`; there must be one.
    pub fn get_hall_order(&self, order_id: u16) -> (o: &Order)
        requires
            self@.orders.contains_key(order_id),
        ensures
            o@ == self@.orders[order_id],
    {
        let r = self.hall_order_queue.get(&order_id);
        r.unwrap()
    }

    /// A mutable reference to the order filed under `order_id`, if any.
    pub fn get_mut_hall_order(&mut self, order_id: u16) -> (r: Option<&mut Order>)
        ensures
            match r {
                Some(o) => {
                    &&& old(self)@.orders.contains_key(order_id)
                    &&& o@ == old(self)@.orders[order_id]
                    &&& final(self)@ == (HallOrderQueueView {
                        orders: old(self)@.orders.insert(order_id, final(o)@),
                        pending_cleanup: old(self)@.pending_cleanup,
                    })
                },
                None => !old(self)@.orders.contains_key(order_id) && final(self)@ == old(self)@,
            },
    {
        proof {
            lemma_order_map_views_insert_any(self.hall_order_queue@);
        }
        map_get_mut(&mut self.hall_order_queue, order_id)
    }

    /// Files `order` under its identifier, in place of any order there.
    pub fn add_to_queue(&mut self, order: Order)
        ensures
            final(self)@ == (HallOrderQueueView {
                orders: old(self)@.orders.insert(order@.order_id, order@),
                pending_cleanup: old(self)@.pending_cleanup,
            }),
    {
        let id = *order.get_order_id();
        proof {
            lemma_order_map_views_insert(self.hall_order_queue@, id, order);
        }
        self.hall_order_queue.insert(id, order);
    }

    /// Drops the order filed under `order_id`, if any.
    pub fn remove_from_queue(&mut self, order_id: u16)
        ensures
            final(self)@ == (HallOrderQueueView {
                orders: old(self)@.orders.remove(order_id),
                pending_cleanup: old(self)@.pending_cleanup,
            }),
    {
        proof {
            lemma_order_map_views_remove(self.hall_order_queue@, order_id);
        }
        self.hall_order_queue.remove(&order_id);
    }

    /// Sets the status of the order filed under `order_id`; without such an
    /// order nothing changes.
    pub fn set_hall_order_status(&mut self, order_id: u16, status: OrderStatus)
        ensures
            final(self)@ == (HallOrderQueueView {
                orders: if old(self)@.orders.contains_key(order_id) {
                    old(self)@.orders.insert(order_id, old(self)@.orders[order_id].with_status(status))
                } else {
                    old(self)@.orders
                },
                pending_cleanup: old(self)@.pending_cleanup,
            }),
    {
        match self.get_mut_hall_order(order_id) {
            Some(order) => order.set_order_status(status),
            None => {},
        }
    }

    /// Replaces the barrier of the order filed under `order_id`; without such
    /// an order nothing changes.
    pub fn set_hall_order_ack_barrier(&mut self, order_id: u16, barrier: Vec<u16>)
        ensures
            final(self)@ == (HallOrderQueueView {
                orders: if old(self)@.orders.contains_key(order_id) {
                    old(self)@.orders.insert(
                        order_id,
                        old(self)@.orders[order_id].with_barrier(barrier@),
                    )
                } else {
                    old(self)@.orders
                },
                pending_cleanup: old(self)@.pending_cleanup,
            }),
    {
        match self.get_mut_hall_order(order_id) {
            Some(order) => order.set_ack_barrier(barrier),
            None => {},
        }
    }

    /// Records an acknowledgement by `elevator_id` of the order filed under
    /// `order_id`; without such an order nothing changes.
    pub fn insert_into_hall_order_ack_barrier(&mut self, order_id: u16, elevator_id: u16)
        ensures
            final(self)@ == (HallOrderQueueView {
                orders: if old(self)@.orders.contains_key(order_id) {
                    old(self)@.orders.insert(
                        order_id,
                        old(self)@.orders[order_id].with_barrier(
                            old(self)@.orders[order_id].ack_barrier.push(elevator_id),
                        ),
                    )
                } else {
                    old(self)@.orders
                },
                pending_cleanup: old(self)@.pending_cleanup,
            }),
    {
        match self.get_mut_hall_order(order_id) {
            Some(order) => order.insert_into_ack_barrier(elevator_id),
            None => {},
        }
    }

    /// One pass of the status manager with `num_elevators` elevators taking
    /// part: each order moves on as `status_step` says, and the orders that
    /// every elevator has acknowledged as ready for deletion are dropped and
    /// their identifiers kept as pending clean-up.
    pub fn hall_order_status_manager(&mut self, num_elevators: u8)
        ensures
            final(self)@.orders == managed_orders(old(self)@.orders, num_elevators as nat),
            final(self)@.pending_cleanup == old(self)@.pending_cleanup + removed_ids(
                old(self)@.orders,
                num_elevators as nat,
            ),
    {
        let ghost old_orders = self@.orders;
        let ghost nn = num_elevators as nat;
        let n = num_elevators as usize;
        let keys = map_keys(&self.hall_order_queue);
        let mut to_remove: Vec<u16> = Vec::new();
        let mut i: usize = 0;
        while i < keys.len()
            invariant
                i <= keys.len(),
                n == nn,
                keys@.to_set() == old_orders.dom(),
                keys@.no_duplicates(),
                self@.pending_cleanup == old(self)@.pending_cleanup,
                self@.orders.dom() == old_orders.dom(),
                forall|k: u16| #[trigger]
                    self@.orders.contains_key(k) ==> self@.orders[k] == (if keys@.take(
                        i as int,
                    ).contains(k) {
                        status_step(old_orders[k], nn)
                    } else {
                        old_orders[k]
                    }),
                forall|k: u16|
                    #[trigger] to_remove@.contains(k) <==> (keys@.take(i as int).contains(k)
                        && ready_for_removal(old_orders[k], nn)),
            decreases keys.len() - i,
        {
            let k = keys[i];
            let ghost before = self@.orders;
            let ghost removal_before = to_remove@;
            proof {
                assert(keys@.take(i + 1) =~= keys@.take(i as int).push(k));
                assert(keys@.to_set().contains(k));
                assert(!keys@.take(i as int).contains(k)) by {
                    if keys@.take(i as int).contains(k) {
                        let j = choose|j: int| 0 <= j < i && keys@[j] == k;
                        assert(keys@[j] == keys@[i as int]);
                    }
                }
            }
            match self.get_mut_hall_order(k) {
                Some(order) => {
                    let c = order.unique_acks();
                    if *order.get_order_status() == OrderStatus::Unconfirmed && c == n {
                        order.set_order_status(OrderStatus::Confirmed);
                        order.set_ack_barrier(Vec::new());
                    } else if *order.get_order_status() == OrderStatus::Completed && c == n {
                        order.set_order_status(OrderStatus::ReadyForDeletion);
                        order.set_ack_barrier(Vec::new());
                    } else if *order.get_order_status() == OrderStatus::ReadyForDeletion && c == n {
                        to_remove.push(k);
                    }
                },
                None => {},
            }
            proof {
                assert(self@.orders[k] == status_step(old_orders[k], nn));
                assert forall|x: u16| #[trigger]
                    self@.orders.contains_key(x) implies self@.orders[x] == (if keys@.take(
                        i + 1,
                    ).contains(x) {
                        status_step(old_orders[x], nn)
                    } else {
                        old_orders[x]
                    }) by {
                    if x != k {
                        assert(before.contains_key(x));
                        assert(self@.orders[x] == before[x]);
                        assert(keys@.take(i + 1).contains(x) == keys@.take(i as int).contains(x));
                    } else {
                        assert(keys@.take(i + 1)[i as int] == k);
                    }
                }
                assert forall|x: u16|
                    #[trigger] to_remove@.contains(x) <==> (keys@.take(i + 1).contains(x)
                        && ready_for_removal(old_orders[x], nn)) by {
                    if x != k {
                        assert(keys@.take(i + 1).contains(x) == keys@.take(i as int).contains(x));
                        if to_remove@.contains(x) {
                            assert(removal_before.contains(x));
                        }
                        if removal_before.contains(x) {
                            let j = choose|j: int| 0 <= j < removal_before.len() && removal_before[j] == x;
                            assert(to_remove@[j] == x);
                        }
                    } else {
                        assert(keys@.take(i + 1)[i as int] == k);
                        if ready_for_removal(old_orders[x], nn) {
                            assert(to_remove@.last() == k);
                        } else {
                            assert(to_remove@ == removal_before);
                        }
                    }
                }
            }
            i += 1;
        }
        proof {
            assert(keys@.take(keys.len() as int) =~= keys@);
        }
        let ghost stepped = self@.orders;
        let mut j: usize = 0;
        while j < to_remove.len()
            invariant
                j <= to_remove.len(),
                self@.orders == stepped.remove_keys(to_remove@.take(j as int).to_set()),
                self@.pending_cleanup == old(self)@.pending_cleanup + to_remove@.take(
                    j as int,
                ).to_set(),
            decreases to_remove.len() - j,
        {
            let id = to_remove[j];
            proof {
                assert(to_remove@.take(j + 1) =~= to_remove@.take(j as int).push(id));
                to_remove@.take(j as int).lemma_push_to_set_commute(id);
            }
            self.remove_from_queue(id);
            let ghost pending_before = self.pending_cleanup@;
            if !contains_id(&self.pending_cleanup, id) {
                self.pending_cleanup.push(id);
                proof {
                    pending_before.lemma_push_to_set_commute(id);
                }
            }
            proof {
                assert(self@.orders =~= stepped.remove_keys(to_remove@.take(j + 1).to_set()));
                assert(self@.pending_cleanup =~= old(self)@.pending_cleanup + to_remove@.take(
                    j + 1,
                ).to_set());
            }
            j += 1;
        }
        proof {
            assert(to_remove@.take(to_remove.len() as int) =~= to_remove@);
            assert forall|k: u16| #[trigger] to_remove@.to_set().contains(k) <==> removed_ids(old_orders, nn).contains(k) by {
                if to_remove@.to_set().contains(k) {
                    assert(to_remove@.contains(k));
                    assert(keys@.contains(k));
                    assert(keys@.to_set().contains(k));
                }
                if removed_ids(old_orders, nn).contains(k) {
                    assert(keys@.to_set().contains(k));
                    assert(keys@.contains(k));
                    assert(to_remove@.contains(k));
                }
            }
            assert(to_remove@.to_set() =~= removed_ids(old_orders, nn));
            assert(self@.orders =~= managed_orders(old_orders, nn));
            assert(self@.pending_cleanup =~= old(self)@.pending_cleanup + removed_ids(old_orders, nn));
        }
    }

    /// Drops every order whose identifier is pending clean-up, and empties the
    /// pending set.
    pub fn clean_up_pending(&mut self)
        ensures
            final(self)@.orders == old(self)@.orders.remove_keys(old(self)@.pending_cleanup),
            final(self)@.pending_cleanup == Set::<u16>::empty(),
    {
        let ghost start = self@.orders;
        let mut j: usize = 0;
        while j < self.pending_cleanup.len()
            invariant
                j <= self.pending_cleanup.len(),
                self.pending_cleanup@ == old(self).pending_cleanup@,
                self@.orders == start.remove_keys(self.pending_cleanup@.take(j as int).to_set()),
            decreases self.pending_cleanup.len() - j,
        {
            let id = self.pending_cleanup[j];
            proof {
                assert(self.pending_cleanup@.take(j + 1) =~= self.pending_cleanup@.take(j as int).push(id));
                self.pending_cleanup@.take(j as int).lemma_push_to_set_commute(id);
                lemma_order_map_views_remove(self.hall_order_queue@, id);
            }
            self.hall_order_queue.remove(&id);
            proof {
                assert(self@.orders =~= start.remove_keys(self.pending_cleanup@.take(j + 1).to_set()));
            }
            j += 1;
        }
        proof {
            assert(self.pending_cleanup@.take(self.pending_cleanup.len() as int) =~= self.pending_cleanup@);
        }
        self.pending_cleanup.clear();
        assert(self@.pending_cleanup =~= Set::<u16>::empty());
    }
}

/// Whether two order maps hold the same orders under the same keys.
pub fn same_order_maps(a: &HashMap<u16, Order>, b: &HashMap<u16, Order>) -> (same: bool)
    ensures
        same == (order_map_views(a@) == order_map_views(b@)),
{
    let ghost va = order_map_views(a@);
    let ghost vb = order_map_views(b@);
    let keys_a = map_keys(a);
    let mut i: usize = 0;
    while i < keys_a.len()
        invariant
            i <= keys_a.len(),
            keys_a@.to_set() == a@.dom(),
            va == order_map_views(a@),
            vb == order_map_views(b@),
            forall|j: int| 0 <= j < i ==> #[trigger] vb.contains_key(keys_a@[j]) && va[keys_a@[j]] == vb[keys_a@[j]],
        decreases keys_a.len() - i,
    {
        let k = keys_a[i];
        assert(keys_a@.to_set().contains(k));
        let oa = a.get(&k).unwrap();
        match b.get(&k) {
            Some(ob) => {
                if !oa.same_as(ob) {
                    assert(va[k] != vb[k]);
                    return false;
                }
            },
            None => {
                assert(va.contains_key(k) && !vb.contains_key(k));
                return false;
            },
        }
        i += 1;
    }
    let keys_b = map_keys(b);
    let mut j: usize = 0;
    while j < keys_b.len()
        invariant
            j <= keys_b.len(),
            keys_b@.to_set() == b@.dom(),
            va == order_map_views(a@),
            vb == order_map_views(b@),
            forall|t: int| 0 <= t < j ==> #[trigger] va.contains_key(keys_b@[t]),
        decreases keys_b.len() - j,
    {
        let k = keys_b[j];
        assert(keys_b@.to_set().contains(k));
        if !a.contains_key(&k) {
            assert(vb.contains_key(k) && !va.contains_key(k));
            return false;
        }
        j += 1;
    }
    proof {
        assert forall|k: u16| va.contains_key(k) implies vb.contains_key(k) && va[k] == vb[k] by {
            assert(keys_a@.to_set().contains(k));
            let t = choose|t: int| 0 <= t < keys_a@.len() && keys_a@[t] == k;
            assert(vb.contains_key(keys_a@[t]));
        }
        assert forall|k: u16| vb.contains_key(k) implies va.contains_key(k) by {
            assert(keys_b@.to_set().contains(k));
            let t = choose|t: int| 0 <= t < keys_b@.len() && keys_b@[t] == k;
            assert(va.contains_key(keys_b@[t]));
        }
        assert(va =~= vb);
    }
    true
}

/// Whether two lists hold the same identifiers, in whatever order and with
/// whatever repeats.
pub fn same_id_sets(a: &Vec<u16>, b: &Vec<u16>) -> (same: bool)
    ensures
        same == (a@.to_set() == b@.to_set()),
{
    let mut i: usize = 0;
    while i < a.len()
        invariant
            i <= a.len(),
            forall|j: int| 0 <= j < i ==> b@.contains(#[trigger] a@[j]),
        decreases a.len() - i,
    {
        if !contains_id(b, a[i]) {
            assert(a@.to_set().contains(a@[i as int]) && !b@.to_set().contains(a@[i as int]));
            return false;
        }
        i += 1;
    }
    let mut j: usize = 0;
    while j < b.len()
        invariant
            j <= b.len(),
            forall|t: int| 0 <= t < a.len() ==> b@.contains(#[trigger] a@[t]),
            forall|t: int| 0 <= t < j ==> a@.contains(#[trigger] b@[t]),
        decreases b.len() - j,
    {
        if !contains_id(a, b[j]) {
            assert(b@.to_set().contains(b@[j as int]) && !a@.to_set().contains(b@[j as int]));
            return false;
        }
        j += 1;
    }
    assert forall|x: u16| a@.to_set().contains(x) <==> b@.to_set().contains(x) by {
        if a@.contains(x) {
            let t = choose|t: int| 0 <= t < a@.len() && a@[t] == x;
            assert(b@.contains(a@[t]));
        }
        if b@.contains(x) {
            let t = choose|t: int| 0 <= t < b@.len() && b@[t] == x;
            assert(a@.contains(b@[t]));
        }
    }
    assert(a@.to_set() =~= b@.to_set());
    true
}

impl HallOrderQueue {
    /// Whether the two queues hold the same orders and the same identifiers
    /// pending clean-up.
    pub fn same_as(&self, other: &HallOrderQueue) -> (same: bool)
        ensures
            same == (self@ == other@),
    {
        same_order_maps(&self.hall_order_queue, &other.hall_order_queue) && same_id_sets(
            &self.pending_cleanup,
            &other.pending_cleanup,
        )
    }
}

} // verus!
