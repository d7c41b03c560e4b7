use vstd::prelude::*;

use crate::memory::world_view::ElevatorStatusCommand;
use crate::message::hardware_msg::HardwareData;
use crate::message::memory_msg::MemoryData;
use crate::message::network_msg::{NetworkData, SYSTEM_IDENTIFIER};

verus! {

impl MemoryData {
    /// The broadcast, from machine `id`, of the world view in a
    /// synchronisation command; any other command is refused.
    pub fn memory_to_network(self, id: u64) -> (r: Result<NetworkData, ()>)
        ensures
            match self.data {
                ElevatorStatusCommand::SynchronizeWorldView { world_view } => r == Ok::<NetworkData, ()>(
                    NetworkData { source_id: SYSTEM_IDENTIFIER, machine_id: id, data: world_view },
                ),
                _ => r == Err::<NetworkData, ()>(()),
            },
    {
        match self.data {
            ElevatorStatusCommand::SynchronizeWorldView { world_view } => Ok(NetworkData::new(world_view, id)),
            _ => Err(()),
        }
    }

    /// No memory command has a direct hardware form: this is always refused.
    pub fn memory_to_hardware(self) -> (r: Result<HardwareData, ()>)
        ensures
            r == Err::<HardwareData, ()>(()),
    {
        Err(())
    }
}

} // verus!
