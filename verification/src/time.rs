//! What drives the simulation clock, and the pause policy that follows
//! from it.

use vstd::prelude::*;

verus! {

/// What is currently driving the simulation clock.
#[derive(Debug, Clone, Copy, PartialEq, Eq, Structural)]
pub enum SimClockMode {
    /// The simulation advances at the clock's scale times real time.
    Running,
    /// The simulation does not advance. Rendered frames still happen; only
    /// the fixed simulation tick stops.
    Paused,
    /// The editor is scrubbing or previewing a specific moment rather than
    /// running the live simulation. Distinct from `Paused`, so editor UI and
    /// gameplay can each ask whether they are the ones driving time.
    EditorPreview,
}

impl Default for SimClockMode {
    fn default() -> (m: Self)
        ensures
            m == SimClockMode::Running,
    {
        SimClockMode::Running
    }
}

impl SimClockMode {
    /// Whether a clock in this mode counts as paused: only `Paused` does;
    /// editor preview is a different reason for time not to run.
    pub fn is_paused(self) -> (b: bool)
        ensures
            b <==> self == SimClockMode::Paused,
    {
        match self {
            SimClockMode::Paused => true,
            _ => false,
        }
    }

    /// Whether the simulation's virtual time should advance in this mode:
    /// only while running. Paused and editor preview both stop it.
    pub fn advances_virtual_time(self) -> (b: bool)
        ensures
            b <==> self == SimClockMode::Running,
    {
        match self {
            SimClockMode::Running => true,
            SimClockMode::Paused | SimClockMode::EditorPreview => false,
        }
    }
}

} // verus!
