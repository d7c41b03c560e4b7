use vstd::prelude::*;

use crate::memory::world_view::ElevatorStatusCommand;
use crate::message::memory_msg::MemoryData;

verus! {

/// A pressed call button: its floor and its button number (0 hall up,
/// 1 hall down, 2 cab).
#[derive(Clone, Copy, Debug, PartialEq, Eq, Structural)]
pub struct ConvertedCallButton {
    pub floor: u8,
    pub call: u8,
}

impl ConvertedCallButton {
    /// The button `call` at `floor`, as the driver reports it.
    pub fn from_call_button(floor: u8, call: u8) -> (b: Self)
        ensures
            b.floor == floor,
            b.call == call,
    {
        ConvertedCallButton { floor, call }
    }
}

/// An event read from the elevator hardware, or a command for it.
#[derive(Clone, Copy, Debug, PartialEq, Eq, Structural)]
pub enum HardwareData {
    CallButton(ConvertedCallButton),
    FloorSensor(u8),
    StopButton(bool),
    Obstruction(bool),
    SetCallButtonLight { floor: u8, call: u8, status: bool },
    SetMotorDirection(u8),
    SetFloorIndicator(u8),
    SetDoorLight(bool),
    SetStopLight(bool),
}

impl HardwareData {
    /// What the hardware shows of a memory command: a floor update becomes
    /// the floor indicator; every other command is refused.
    pub fn try_from_memory(data: MemoryData) -> (r: Result<HardwareData, ()>)
        ensures
            match data.data {
                ElevatorStatusCommand::SetFloor { elevator_id: _, floor } => r == Ok::<HardwareData, ()>(
                    HardwareData::SetFloorIndicator(floor),
                ),
                _ => r == Err::<HardwareData, ()>(()),
            },
    {
        match data.data {
            ElevatorStatusCommand::SetFloor { elevator_id: _, floor } => Ok(HardwareData::SetFloorIndicator(floor)),
            _ => Err(()),
        }
    }
}

} // verus!
