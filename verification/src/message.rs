pub mod hardware_msg;
pub mod memory_msg;
pub mod network_msg;
pub mod translate;

use vstd::prelude::*;

use crate::memory::world_view::ElevatorStatusCommand;
use crate::message::hardware_msg::HardwareData;
use crate::message::memory_msg::{converted_from_hardware, hardware_converts, MemoryData};
use crate::message::network_msg::{NetworkData, SYSTEM_IDENTIFIER};

verus! {

/// Identifier of a message made on this machine.
pub const LOCAL_ID: u64 = 0;

/// A message between the threads of one controller, with what it carries.
#[derive(Debug)]
pub struct Message {
    pub id: u64,
    pub data: MessageContent,
}

/// What a message carries, in the form of the thread it is meant for.
#[derive(Debug)]
pub enum MessageContent {
    Memory(MemoryData),
    Network(NetworkData),
    Hardware(HardwareData),
}

/// Whether `m` may be turned into a message for the memory thread: a
/// hardware event must be one that the memory thread records.
pub open spec fn memory_convertible(m: Message) -> bool {
    m.data matches MessageContent::Hardware(d) ==> hardware_converts(d)
}

/// Whether `m` may be turned into a message for the hardware thread: a
/// memory command must be one that the hardware shows.
pub open spec fn hardware_convertible(m: Message) -> bool {
    m.data matches MessageContent::Memory(d) ==> d.data is SetFloor
}

impl Message {
    /// A message made here, carrying `content`.
    pub fn new(content: MessageContent) -> (m: Self)
        ensures
            m.id == LOCAL_ID,
            m.data == content,
    {
        Message { id: LOCAL_ID, data: content }
    }

    /// The same message in the form of the memory thread: a hardware event
    /// becomes the command that records it (a call button gets a fresh order
    /// under a random identifier), a received world view becomes a
    /// synchronisation, and a memory command stays as it is.
    pub fn try_into_memory(self) -> (m: Self)
        requires
            memory_convertible(self),
        ensures
            m.id == self.id,
            match self.data {
                MessageContent::Hardware(d) => m.data matches MessageContent::Memory(md)
                    && exists|order_id: u16| #[trigger] converted_from_hardware(d, md, order_id),
                MessageContent::Network(n) => m.data == MessageContent::Memory(
                    MemoryData { data: ElevatorStatusCommand::SynchronizeWorldView { world_view: n.data } },
                ),
                MessageContent::Memory(md) => m.data == MessageContent::Memory(md),
            },
    {
        let id = self.id;
        let mem = match self.data {
            MessageContent::Hardware(data) => MemoryData::try_from_hardware(data).unwrap(),
            MessageContent::Network(data) => MemoryData::from_network(data),
            MessageContent::Memory(data) => data,
        };
        Message { id, data: MessageContent::Memory(mem) }
    }

    /// The same message in the form of the network thread: a
    /// synchronisation command becomes the world view to broadcast, a network
    /// message stays as it is, and everything else is refused.
    pub fn try_into_network(self) -> (r: Result<Self, ()>)
        ensures
            match self.data {
                MessageContent::Memory(md) => match md.data {
                    ElevatorStatusCommand::SynchronizeWorldView { world_view } => r == Ok::<Message, ()>(
                        Message {
                            id: self.id,
                            data: MessageContent::Network(
                                NetworkData { source_id: SYSTEM_IDENTIFIER, machine_id: 0, data: world_view },
                            ),
                        },
                    ),
                    _ => r == Err::<Message, ()>(()),
                },
                MessageContent::Network(n) => r == Ok::<Message, ()>(
                    Message { id: self.id, data: MessageContent::Network(n) },
                ),
                MessageContent::Hardware(_) => r == Err::<Message, ()>(()),
            },
    {
        let id = self.id;
        let net = match self.data {
            MessageContent::Memory(data) => {
                match NetworkData::try_from_memory(data) {
                    Ok(n) => n,
                    Err(e) => {
                        return Err(e);
                    },
                }
            },
            MessageContent::Network(data) => data,
            _ => {
                return Err(());
            },
        };
        Ok(Message { id, data: MessageContent::Network(net) })
    }

    /// The same message in the form of the hardware thread: a floor update
    /// becomes the floor indicator, a hardware message stays as it is, and a
    /// network message is refused.
    pub fn try_into_hardware(self) -> (r: Result<Self, ()>)
        requires
            hardware_convertible(self),
        ensures
            match self.data {
                MessageContent::Memory(md) => match md.data {
                    ElevatorStatusCommand::SetFloor { elevator_id: _, floor } => r == Ok::<Message, ()>(
                        Message { id: self.id, data: MessageContent::Hardware(HardwareData::SetFloorIndicator(floor)) },
                    ),
                    _ => false,
                },
                MessageContent::Hardware(h) => r == Ok::<Message, ()>(
                    Message { id: self.id, data: MessageContent::Hardware(h) },
                ),
                MessageContent::Network(_) => r == Err::<Message, ()>(()),
            },
    {
        let id = self.id;
        let hw = match self.data {
            MessageContent::Memory(data) => HardwareData::try_from_memory(data).unwrap(),
            MessageContent::Hardware(data) => data,
            _ => {
                return Err(());
            },
        };
        Ok(Message { id, data: MessageContent::Hardware(hw) })
    }
}

} // verus!
