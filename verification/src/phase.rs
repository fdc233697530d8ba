//! The ordered startup phases Northstar's own systems run in.

use vstd::prelude::*;

verus! {

/// The ordered phases Northstar's startup systems run in.
///
/// Deliberately just an ordering, not a persistent state machine: nothing
/// tracks "which phase are we in" after startup, and there is no transition
/// logic to get wrong. Once startup has run, these sets have simply executed
/// in order.
#[derive(Debug, Clone, Copy, PartialEq, Eq, Structural, Hash)]
pub enum NorthstarPhase {
    /// Diagnostics are up by the time this runs; a landing point for
    /// one-time bootstrap work that is not package- or asset-related.
    Bootstrap,
    /// Mount package catalogs.
    MountPackages,
    /// Kick off asset loads that gameplay startup depends on.
    LoadAssets,
    /// Application or game startup: the initial scene, a menu, and so on.
    /// Runs last.
    AppStartup,
}

impl NorthstarPhase {
    /// Where this phase stands in the fixed execution order, from zero.
    pub open spec fn rank(self) -> int {
        match self {
            NorthstarPhase::Bootstrap => 0,
            NorthstarPhase::MountPackages => 1,
            NorthstarPhase::LoadAssets => 2,
            NorthstarPhase::AppStartup => 3,
        }
    }

    /// All phases, in their fixed execution order: the phase at position
    /// `i` is the one of rank `i`, so each phase occurs exactly once.
    pub fn order() -> (phases: [NorthstarPhase; 4])
        ensures
            forall|i: int| 0 <= i < 4 ==> (#[trigger] phases@[i]).rank() == i,
    {
        [
            NorthstarPhase::Bootstrap,
            NorthstarPhase::MountPackages,
            NorthstarPhase::LoadAssets,
            NorthstarPhase::AppStartup,
        ]
    }
}

/// Every phase occurs in the execution order, at the position of its rank,
/// and nowhere else.
pub proof fn law_order_lists_each_phase_once(p: NorthstarPhase, phases: [NorthstarPhase; 4])
    requires
        forall|i: int| 0 <= i < 4 ==> (#[trigger] phases@[i]).rank() == i,
    ensures
        phases@[p.rank()] == p,
        forall|i: int| 0 <= i < 4 && phases@[i] == p ==> i == p.rank(),
{
    assert((phases@[p.rank()]).rank() == p.rank());
}

} // verus!
