//! What the launcher decides when a launch button is pressed, a launch
//! finishes, or a launched application stops, and the status line it shows.
//! Spawning and polling the processes is the launcher's own I/O.

use vstd::prelude::*;

use crate::text::{join, join3, owned};

verus! {

/// An application the launcher can start.
#[derive(Clone, Copy, Debug, PartialEq, Eq, Structural, Hash)]
pub enum LaunchTarget {
    Game,
    Editor,
}

impl LaunchTarget {
    /// The target's binary name.
    pub fn binary(self) -> (b: &'static str)
        ensures
            b@ == match self {
                LaunchTarget::Game => "northstar-game"@,
                LaunchTarget::Editor => "northstar-editor"@,
            },
    {
        match self {
            LaunchTarget::Game => "northstar-game",
            LaunchTarget::Editor => "northstar-editor",
        }
    }

    /// The target's display name.
    pub fn label(self) -> (l: &'static str)
        ensures
            l@ == spec_label(self),
    {
        match self {
            LaunchTarget::Game => "Northstar",
            LaunchTarget::Editor => "Northstar Editor",
        }
    }
}

/// The display name of a target.
pub open spec fn spec_label(t: LaunchTarget) -> Seq<char> {
    match t {
        LaunchTarget::Game => "Northstar"@,
        LaunchTarget::Editor => "Northstar Editor"@,
    }
}

/// What pressing a target's launch button does.
#[derive(Debug, Clone, PartialEq, Eq)]
pub enum PressDecision {
    /// The target is already running: nothing is launched; the status line
    /// says so.
    AlreadyRunning(String),
    /// Launch the target.
    Launch,
}

/// The decision for a press of `target`'s button, given whether it is
/// already running.
pub fn on_press(target: LaunchTarget, running: bool) -> (d: PressDecision)
    ensures
        running ==> (d matches PressDecision::AlreadyRunning(s) && s@ == spec_label(target)
            + " is already running"@),
        !running ==> d == PressDecision::Launch,
{
    if running {
        PressDecision::AlreadyRunning(join(owned(target.label()), " is already running"))
    } else {
        PressDecision::Launch
    }
}

/// The status line after a launch attempt: `Launched <label>`, or
/// `Could not launch <label>: <error>`.
pub fn launch_status(target: LaunchTarget, outcome: Result<(), &str>) -> (s: String)
    ensures
        s@ == match outcome {
            Ok(()) => "Launched "@ + spec_label(target),
            Err(e) => "Could not launch "@ + spec_label(target) + ": "@ + e@,
        },
{
    match outcome {
        Ok(()) => join(owned("Launched "), target.label()),
        Err(e) => join(join3("Could not launch ", target.label(), ": "), e),
    }
}

/// The status line when a launched application stops: `<label> exited
/// with <status>` when it exited, `Lost track of <label>: <error>` when it
/// could not be polled. Either way it is no longer counted as running.
pub fn stopped_status(target: LaunchTarget, outcome: Result<&str, &str>) -> (s: String)
    ensures
        s@ == match outcome {
            Ok(status) => spec_label(target) + " exited with "@ + status@,
            Err(e) => "Lost track of "@ + spec_label(target) + ": "@ + e@,
        },
{
    match outcome {
        Ok(status) => join(join(owned(target.label()), " exited with "), status),
        Err(e) => join(join3("Lost track of ", target.label(), ": "), e),
    }
}

} // verus!
