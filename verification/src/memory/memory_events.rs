use std::collections::HashMap;
use vstd::prelude::*;

use crate::collections::map_keys;
use crate::memory::elevator::{DeadOrAlive, Elevator, ElevatorView};
use crate::memory::hall_order_queue::HallOrderQueueView;
use crate::memory::world_view::{
    alive_count, elevator_command_allowed, fresh_world_view, elevator_command_result, hall_command_result,
    maintained, sync_allowed, sync_result, ElevatorStatusCommand, MemoryCommand, WorldView,
    WorldViewState,
};

verus! {

broadcast use vstd::std_specs::hash::group_hash_axioms;

/// How long a peer may stay silent, in milliseconds, before it is recorded
/// as dead.
pub const PEER_TIMEOUT_MS: u64 = 4000;

/// Something the memory keeper reacts to. Times are milliseconds on a clock
/// that does not go back.
#[derive(Debug)]
pub enum MemoryEvent {
    /// A picture received from a peer.
    WorldViewReceived { world_view: WorldView, now_ms: u64 },
    /// A change asked for by this elevator's own threads.
    Command(MemoryCommand),
    /// The periodic check for peers that have gone silent.
    LivenessTick { now_ms: u64 },
    /// The periodic removal of hall orders pending clean-up.
    CleanupTick,
}

/// What the memory keeper holds, as plain values.
pub struct MemoryStateView {
    pub world: WorldViewState,
    /// When each elevator was last heard from.
    pub last_seen: Map<u16, u64>,
}

/// Milliseconds from `then` to `now`, zero when `now` is earlier.
pub open spec fn elapsed(now: u64, then: u64) -> int {
    if now >= then {
        now - then
    } else {
        0
    }
}

/// Whether the peer `id` has been silent for longer than the timeout.
pub open spec fn timed_out(s: MemoryStateView, now: u64, id: u16) -> bool {
    &&& s.last_seen.contains_key(id)
    &&& id != s.world.my_id
    &&& elapsed(now, s.last_seen[id]) > PEER_TIMEOUT_MS
}

/// The records after marking every timed-out peer that has a record as dead.
pub open spec fn with_timed_out_dead(s: MemoryStateView, now: u64) -> Map<u16, ElevatorView> {
    Map::new(
        |k: u16| s.world.elevators.contains_key(k),
        |k: u16|
            if timed_out(s, now, k) {
                ElevatorView { dead_or_alive: DeadOrAlive::Dead, ..s.world.elevators[k] }
            } else {
                s.world.elevators[k]
            },
    )
}

/// The picture after merging `incoming` and marking its sender alive.
pub open spec fn received_result(world: WorldViewState, incoming: WorldViewState) -> WorldViewState {
    let merged = sync_result(world, incoming);
    if merged.elevators.contains_key(incoming.my_id) {
        merged.with_elevator(
            incoming.my_id,
            ElevatorView { dead_or_alive: DeadOrAlive::Alive, ..merged.elevators[incoming.my_id] },
        )
    } else {
        merged
    }
}

/// The events that `handle_event` accepts.
pub open spec fn event_allowed(s: MemoryStateView, e: MemoryEvent) -> bool {
    match e {
        MemoryEvent::WorldViewReceived { world_view, .. } => sync_allowed(s.world, world_view@),
        MemoryEvent::Command(MemoryCommand::ElevatorStatus(c)) => elevator_command_allowed(s.world, c),
        _ => true,
    }
}

/// What an event does to the memory keeper's state.
pub open spec fn event_result(s: MemoryStateView, e: MemoryEvent) -> MemoryStateView {
    match e {
        MemoryEvent::WorldViewReceived { world_view, now_ms } => MemoryStateView {
            world: received_result(s.world, world_view@),
            last_seen: s.last_seen.insert(world_view@.my_id, now_ms),
        },
        MemoryEvent::Command(MemoryCommand::ElevatorStatus(c)) => MemoryStateView {
            world: elevator_command_result(s.world, c),
            ..s
        },
        MemoryEvent::Command(MemoryCommand::HallOrderQueue(c)) => MemoryStateView {
            world: hall_command_result(s.world, c),
            ..s
        },
        MemoryEvent::LivenessTick { now_ms } => MemoryStateView {
            world: s.world.with_elevators(with_timed_out_dead(s, now_ms)),
            ..s
        },
        MemoryEvent::CleanupTick => MemoryStateView {
            world: s.world.with_hall(
                HallOrderQueueView {
                    orders: s.world.hall.orders.remove_keys(s.world.hall.pending_cleanup),
                    pending_cleanup: Set::empty(),
                },
            ),
            ..s
        },
    }
}

/// The state of the thread that keeps this elevator's picture of the group:
/// the picture, and when each peer was last heard from.
#[derive(Debug)]
pub struct MemoryState {
    world_view: WorldView,
    last_seen: HashMap<u16, u64>,
}

impl View for MemoryState {
    type V = MemoryStateView;

    closed spec fn view(&self) -> MemoryStateView {
        MemoryStateView { world: self.world_view@, last_seen: self.last_seen@ }
    }
}

impl MemoryState {
    /// The state of a freshly started elevator, which has just heard from
    /// itself.
    pub fn new(my_elevator_id: u16, my_session_id: u16, now_ms: u64) -> (m: Self)
        ensures
            m@.world == fresh_world_view(my_elevator_id, my_session_id),
            m@.last_seen == Map::<u16, u64>::empty().insert(my_elevator_id, now_ms),
            m@.world.wf(),
    {
        let mut last_seen: HashMap<u16, u64> = HashMap::new();
        last_seen.insert(my_elevator_id, now_ms);
        MemoryState { world_view: WorldView::new(my_elevator_id, my_session_id), last_seen }
    }

    pub fn get_world_view(&self) -> (w: &WorldView)
        ensures
            w@ == self@.world,
    {
        &self.world_view
    }

    /// Whether `handle_event` accepts `event`.
    pub fn can_handle_event(&self, event: &MemoryEvent) -> (ok: bool)
        ensures
            ok == event_allowed(self@, *event),
    {
        match event {
            MemoryEvent::WorldViewReceived { world_view, .. } => self.world_view.can_synchronize(world_view),
            MemoryEvent::Command(MemoryCommand::ElevatorStatus(c)) => self.world_view.can_edit_elevator_status(c),
            _ => true,
        }
    }

    /// Reacts to one event (see `event_result`).
    pub fn handle_event(&mut self, event: MemoryEvent)
        requires
            old(self)@.world.wf(),
            event_allowed(old(self)@, event),
        ensures
            final(self)@ == event_result(old(self)@, event),
            final(self)@.world.wf(),
    {
        match event {
            MemoryEvent::WorldViewReceived { world_view, now_ms } => {
                let sender_id = world_view.get_id();
                self.world_view.edit_elevator_status(
                    ElevatorStatusCommand::SynchronizeWorldView { world_view },
                );
                self.last_seen.insert(sender_id, now_ms);
                if self.world_view.get_elevator_statuses().contains_key(&sender_id) {
                    self.world_view.set_elev_dead_or_alive(sender_id, DeadOrAlive::Alive);
                }
            },
            MemoryEvent::Command(MemoryCommand::ElevatorStatus(c)) => {
                self.world_view.edit_elevator_status(c);
            },
            MemoryEvent::Command(MemoryCommand::HallOrderQueue(c)) => {
                self.world_view.edit_hall_order_queue(c);
            },
            MemoryEvent::LivenessTick { now_ms } => {
                self.mark_timed_out_dead(now_ms);
            },
            MemoryEvent::CleanupTick => {
                self.world_view.get_mut_hall_order_queue().clean_up_pending();
            },
        }
    }

    /// Marks every peer silent for longer than the timeout, and with a
    /// record, as dead.
    fn mark_timed_out_dead(&mut self, now_ms: u64)
        requires
            old(self)@.world.wf(),
        ensures
            final(self)@ == (MemoryStateView {
                world: old(self)@.world.with_elevators(with_timed_out_dead(old(self)@, now_ms)),
                ..old(self)@
            }),
    {
        let ghost s = old(self)@;
        let my_id = self.world_view.get_id();
        let ids = map_keys(&self.last_seen);
        let mut i: usize = 0;
        while i < ids.len()
            invariant
                i <= ids.len(),
                ids@.to_set() == s.last_seen.dom(),
                ids@.no_duplicates(),
                my_id == s.world.my_id,
                self.last_seen@ == s.last_seen,
                self@.world == s.world.with_elevators(self@.world.elevators),
                self@.world.elevators == Map::new(
                    |k: u16| s.world.elevators.contains_key(k),
                    |k: u16|
                        if ids@.take(i as int).contains(k) && timed_out(s, now_ms, k) {
                            ElevatorView { dead_or_alive: DeadOrAlive::Dead, ..s.world.elevators[k] }
                        } else {
                            s.world.elevators[k]
                        },
                ),
            decreases ids.len() - i,
        {
            let id = ids[i];
            proof {
                assert(ids@.take(i + 1) =~= ids@.take(i as int).push(id));
                assert(ids@.to_set().contains(id));
                assert(!ids@.take(i as int).contains(id)) by {
                    if ids@.take(i as int).contains(id) {
                        let j = choose|j: int| 0 <= j < i && ids@[j] == id;
                        assert(ids@[j] == ids@[i as int]);
                    }
                }
                assert forall|k: u16| k != id implies ids@.take(i + 1).contains(k) == ids@.take(
                    i as int,
                ).contains(k) by {}
                assert(ids@.take(i + 1)[i as int] == id);
            }
            let last = *self.last_seen.get(&id).unwrap();
            let silent = now_ms >= last && now_ms - last > PEER_TIMEOUT_MS;
            if id != my_id && silent && self.world_view.get_elevator_statuses().contains_key(&id) {
                self.world_view.set_elev_dead_or_alive(id, DeadOrAlive::Dead);
            }
            proof {
                assert(self@.world.elevators =~= Map::new(
                    |k: u16| s.world.elevators.contains_key(k),
                    |k: u16|
                        if ids@.take(i + 1).contains(k) && timed_out(s, now_ms, k) {
                            ElevatorView { dead_or_alive: DeadOrAlive::Dead, ..s.world.elevators[k] }
                        } else {
                            s.world.elevators[k]
                        },
                ));
            }
            i += 1;
        }
        proof {
            assert(ids@.take(ids.len() as int) =~= ids@);
            assert forall|k: u16| ids@.contains(k) <==> s.last_seen.contains_key(k) by {
                assert(ids@.to_set().contains(k) == ids@.contains(k));
            }
            assert(self@.world.elevators =~= with_timed_out_dead(s, now_ms));
        }
    }

    /// Whether fewer than 256 elevators are recorded as alive, as
    /// `maintain_order_statuses` needs.
    pub fn alive_count_fits(&self) -> (fits: bool)
        ensures
            fits == (alive_count(self@.world.elevators) <= 255),
    {
        self.world_view.alive_count_fits()
    }

    /// One pass of the hall and cab status managers (see `maintained`).
    pub fn maintain_order_statuses(&mut self)
        requires
            old(self)@.world.wf(),
            alive_count(old(self)@.world.elevators) <= 255,
        ensures
            final(self)@ == (MemoryStateView { world: maintained(old(self)@.world), ..old(self)@ }),
            final(self)@.world.wf(),
    {
        self.world_view.maintain_order_statuses();
    }
}

/// The record of the own elevator in the memory keeper's picture.
pub open spec fn own_record(s: MemoryStateView) -> ElevatorView {
    s.world.elevators[s.world.my_id]
}

/// The memory keeper's state after one pass of both status managers.
pub open spec fn after_maintenance(s: MemoryStateView) -> MemoryStateView {
    MemoryStateView { world: maintained(s.world), ..s }
}

/// The view of a record handed on, if any.
pub open spec fn elevator_opt_view(o: Option<Elevator>) -> Option<ElevatorView> {
    match o {
        Some(e) => Some(e@),
        None => None,
    }
}

/// The view of a picture handed on, if any.
pub open spec fn world_opt_view(o: Option<WorldView>) -> Option<WorldViewState> {
    match o {
        Some(w) => Some(w@),
        None => None,
    }
}

/// What the memory loop holds, as plain values: the memory keeper's state,
/// and the record and the picture it handed on last.
pub struct LoopView {
    pub memory: MemoryStateView,
    pub last_elevator: Option<ElevatorView>,
    pub last_world: Option<WorldViewState>,
}

/// One turn of the memory loop: the event, then a pass of the status
/// managers; afterwards the last record and picture handed on are the
/// current ones (handed on now, or equal to those handed on before).
pub open spec fn loop_step(l: LoopView, e: MemoryEvent) -> LoopView {
    let m = after_maintenance(event_result(l.memory, e));
    LoopView { memory: m, last_elevator: Some(own_record(m)), last_world: Some(m.world) }
}

/// The record a turn of the memory loop hands on: the own record after the
/// turn, unless it equals the one handed on last.
pub open spec fn elevator_handed_on(l: LoopView, e: MemoryEvent) -> Option<ElevatorView> {
    let current = own_record(loop_step(l, e).memory);
    if l.last_elevator == Some(current) {
        None
    } else {
        Some(current)
    }
}

/// The picture a turn of the memory loop hands on: the picture after the
/// turn, unless it equals the one handed on last.
pub open spec fn world_handed_on(l: LoopView, e: MemoryEvent) -> Option<WorldViewState> {
    let current = loop_step(l, e).memory.world;
    if l.last_world == Some(current) {
        None
    } else {
        Some(current)
    }
}

/// Whether the memory thread hands on this elevator's record: unless the
/// record it handed on last has the same view.
pub fn should_send_elevator(last_sent: &Option<Elevator>, snapshot: &Elevator) -> (send: bool)
    ensures
        send == (match *last_sent {
            Some(l) => l@ != snapshot@,
            None => true,
        }),
{
    match last_sent {
        Some(l) => !l.same_as(snapshot),
        None => true,
    }
}

/// Whether the memory thread hands on its picture (to the decision thread
/// and to the broadcast): unless the picture it handed on last has the same
/// view.
pub fn should_send_world_view(last_sent: &Option<WorldView>, snapshot: &WorldView) -> (send: bool)
    ensures
        send == (match *last_sent {
            Some(l) => l@ != snapshot@,
            None => true,
        }),
{
    match last_sent {
        Some(l) => !l.same_as(snapshot),
        None => true,
    }
}

impl MemoryState {
    /// The rest of a turn of the memory loop after an event: a pass of both
    /// status managers, then the own record and the picture, each handed on
    /// (returned, and remembered as the last one handed on) unless it equals
    /// the one handed on last.
    pub fn finish_turn(
        &mut self,
        last_elevator: &mut Option<Elevator>,
        last_world: &mut Option<WorldView>,
    ) -> (sent: (Option<Elevator>, Option<WorldView>))
        requires
            old(self)@.world.wf(),
            alive_count(old(self)@.world.elevators) <= 255,
        ensures
            final(self)@ == after_maintenance(old(self)@),
            final(self)@.world.wf(),
            elevator_opt_view(*final(last_elevator)) == Some(own_record(final(self)@)),
            world_opt_view(*final(last_world)) == Some(final(self)@.world),
            match sent.0 {
                Some(e) => e@ == own_record(final(self)@) && elevator_opt_view(*old(last_elevator)) != Some(e@),
                None => elevator_opt_view(*old(last_elevator)) == Some(own_record(final(self)@)),
            },
            match sent.1 {
                Some(w) => w@ == final(self)@.world && world_opt_view(*old(last_world)) != Some(w@),
                None => world_opt_view(*old(last_world)) == Some(final(self)@.world),
            },
    {
        self.maintain_order_statuses();
        let my_id = self.world_view.get_id();
        let record = self.world_view.get_elevator(my_id).clone();
        let sent_record = if should_send_elevator(last_elevator, &record) {
            *last_elevator = Some(record.clone());
            Some(record)
        } else {
            None
        };
        let picture = self.world_view.clone();
        let sent_picture = if should_send_world_view(last_world, &picture) {
            *last_world = Some(picture.clone());
            Some(picture)
        } else {
            None
        };
        (sent_record, sent_picture)
    }
}

} // verus!
