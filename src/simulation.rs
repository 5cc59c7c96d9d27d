//! Whether the driver advances the grid on each tick.
use vstd::prelude::*;

verus! {

/// The run state kept by whoever drives the simulation: a running
/// simulation advances one generation per tick, a stopped one does not.
#[derive(Clone, Copy, Debug, PartialEq, Eq, Structural)]
pub enum SimulationState {
    Stopped,
    Running,
}

impl SimulationState {
    /// The state after the start/stop control is pressed.
    pub fn toggled(self) -> (r: SimulationState)
        ensures
            self == SimulationState::Stopped ==> r == SimulationState::Running,
            self == SimulationState::Running ==> r == SimulationState::Stopped,
    {
        match self {
            SimulationState::Stopped => SimulationState::Running,
            SimulationState::Running => SimulationState::Stopped,
        }
    }

    /// Whether a tick advances the grid.
    pub fn is_running(self) -> (r: bool)
        ensures
            r == (self == SimulationState::Running),
    {
        match self {
            SimulationState::Stopped => false,
            SimulationState::Running => true,
        }
    }
}

} // verus!
