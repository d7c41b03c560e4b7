use vstd::prelude::*;

use crate::memory::elevator::Obstruction;
use crate::memory::orders::{random_order_id, Order, OrderDirection, OrderStatus, OrderType, OrderView};
use crate::memory::world_view::ElevatorStatusCommand;
use crate::message::hardware_msg::HardwareData;
use crate::message::network_msg::NetworkData;

verus! {

/// The obstruction state that a reading of the obstruction switch means.
pub open spec fn obstruction_of(obs: bool) -> Obstruction {
    if obs {
        Obstruction::Obstructed
    } else {
        Obstruction::Clear
    }
}

/// The obstruction state that a reading of the obstruction switch means.
pub fn get_obstruction(obs: bool) -> (o: Obstruction)
    ensures
        o == obstruction_of(obs),
{
    match obs {
        true => Obstruction::Obstructed,
        false => Obstruction::Clear,
    }
}

/// A command for the memory thread.
#[derive(Debug)]
pub struct MemoryData {
    pub data: ElevatorStatusCommand,
}

/// Whether the memory thread records a hardware event: a call button, a
/// floor sensor reading or an obstruction switch reading.
pub open spec fn hardware_converts(data: HardwareData) -> bool {
    ||| data is CallButton
    ||| data is FloorSensor
    ||| data is Obstruction
}

/// The order that a press of button `call` at `floor` places, under the
/// identifier `order_id`.
pub open spec fn pressed_order(floor: u8, call: u8, order_id: u16) -> OrderView {
    OrderView {
        order_id,
        floor,
        order_type: if call == 2 { OrderType::Cab } else { OrderType::Hall },
        direction: if call == 0 { OrderDirection::Up } else { OrderDirection::Down },
        order_status: OrderStatus::Unconfirmed,
        ack_barrier: Seq::<u16>::empty(),
    }
}

/// Whether `m` is the command that records the hardware event `data` for
/// this elevator (number 0 stands for the local elevator), a pressed button
/// placing its order under `order_id`.
pub open spec fn converted_from_hardware(data: HardwareData, m: MemoryData, order_id: u16) -> bool {
    match data {
        HardwareData::CallButton(b) => m.data matches ElevatorStatusCommand::AddCabOrder {
            elevator_id,
            order,
        } && elevator_id == 0 && order@ == pressed_order(b.floor, b.call, order_id),
        HardwareData::FloorSensor(f) => m.data == ElevatorStatusCommand::SetFloor { elevator_id: 0, floor: f },
        HardwareData::Obstruction(s) => m.data == ElevatorStatusCommand::SetObstruction {
            elevator_id: 0,
            obstruction: obstruction_of(s),
        },
        _ => false,
    }
}

impl MemoryData {
    /// The command that records the hardware event `data`, a pressed button
    /// placing its order under `order_id`; events that the memory thread does
    /// not record are refused.
    pub fn try_from_hardware_with_order_id(data: HardwareData, order_id: u16) -> (r: Result<MemoryData, ()>)
        ensures
            r is Ok <==> hardware_converts(data),
            r matches Ok(m) ==> converted_from_hardware(data, m, order_id),
    {
        match data {
            HardwareData::CallButton(call_button) => {
                let order = Order::new_with_id(
                    order_id,
                    call_button.floor,
                    OrderType::is_cab(call_button.call),
                    OrderDirection::dir_from_call(call_button.call),
                );
                Ok(MemoryData { data: ElevatorStatusCommand::AddCabOrder { elevator_id: 0, order } })
            },
            HardwareData::FloorSensor(floor) => Ok(
                MemoryData { data: ElevatorStatusCommand::SetFloor { elevator_id: 0, floor } },
            ),
            HardwareData::Obstruction(status) => Ok(
                MemoryData {
                    data: ElevatorStatusCommand::SetObstruction { elevator_id: 0, obstruction: get_obstruction(status) },
                },
            ),
            _ => Err(()),
        }
    }

    /// The command that records the hardware event `data`, a pressed button
    /// placing its order under a random identifier; events that the memory
    /// thread does not record are refused.
    pub fn try_from_hardware(data: HardwareData) -> (r: Result<MemoryData, ()>)
        ensures
            r is Ok <==> hardware_converts(data),
            r matches Ok(m) ==> exists|order_id: u16| #[trigger] converted_from_hardware(data, m, order_id),
    {
        let order_id = random_order_id();
        let r = Self::try_from_hardware_with_order_id(data, order_id);
        assert(r matches Ok(m) ==> converted_from_hardware(data, m, order_id));
        r
    }

    /// The synchronisation command for a world view received from a peer.
    pub fn from_network(data: NetworkData) -> (m: MemoryData)
        ensures
            m == (MemoryData { data: ElevatorStatusCommand::SynchronizeWorldView { world_view: data.data } }),
    {
        MemoryData { data: ElevatorStatusCommand::SynchronizeWorldView { world_view: data.data } }
    }
}

} // verus!
