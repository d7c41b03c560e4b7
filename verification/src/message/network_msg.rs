use vstd::prelude::*;

use crate::memory::world_view::{ElevatorStatusCommand, WorldView};
use crate::message::memory_msg::MemoryData;

verus! {

/// Marker at the head of every broadcast of this system.
pub const SYSTEM_IDENTIFIER: [u8; 4] = [0xF0u8, 0x9Fu8, 0x8Du8, 0x86u8];

/// A world view as it is broadcast to the other controllers.
#[derive(Debug)]
pub struct NetworkData {
    pub source_id: [u8; 4],
    pub machine_id: u64,
    pub data: WorldView,
}

impl NetworkData {
    /// A broadcast of `data` from the machine `machine_id`.
    pub fn new(data: WorldView, machine_id: u64) -> (n: Self)
        ensures
            n == (NetworkData { source_id: SYSTEM_IDENTIFIER, machine_id, data }),
    {
        NetworkData { source_id: SYSTEM_IDENTIFIER, machine_id, data }
    }

    /// The broadcast of the world view in a synchronisation command (with
    /// machine number 0); any other command is refused.
    pub fn try_from_memory(data: MemoryData) -> (r: Result<NetworkData, ()>)
        ensures
            match data.data {
                ElevatorStatusCommand::SynchronizeWorldView { world_view } => r == Ok::<NetworkData, ()>(
                    NetworkData { source_id: SYSTEM_IDENTIFIER, machine_id: 0, data: world_view },
                ),
                _ => r == Err::<NetworkData, ()>(()),
            },
    {
        match data.data {
            ElevatorStatusCommand::SynchronizeWorldView { world_view } => Ok(NetworkData::new(world_view, 0)),
            _ => Err(()),
        }
    }
}

} // verus!
