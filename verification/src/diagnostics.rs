//! Build provenance and the conventional log categories.
//!
//! The build values themselves (crate version, git commit, working-tree
//! state, profile) are known only to the compiler invocation; the
//! application reads them and hands them to [`BuildInfo::current`].

use vstd::prelude::*;

use crate::text::{join, owned, str_eq};

verus! {

/// Package mounting, `.nspkg` classification, container decoding, asset
/// dispatch.
pub const ASSETS: &'static str = "northstar::assets";

/// Simulation clock, fixed-tick scheduling, pause/scale state.
pub const SIM: &'static str = "northstar::sim";

/// Editor views, workspace layout, editor-only tooling.
pub const EDITOR: &'static str = "northstar::editor";

/// Application bootstrap and startup-phase sequencing.
pub const BOOTSTRAP: &'static str = "northstar::bootstrap";

/// `northstar-dev` and other offline developer tooling.
pub const DEV_TOOLS: &'static str = "northstar::dev_tools";

/// Version and build provenance, captured at compile time.
#[derive(Debug, Clone, Copy)]
pub struct BuildInfo {
    /// The embedding binary's crate version.
    pub version: &'static str,
    /// Short git commit of the build, or `"unknown"` without git.
    pub git_sha: &'static str,
    /// Whether the working tree had uncommitted changes at build time.
    pub git_dirty: bool,
    /// The build profile, `"debug"` or `"release"`.
    pub profile: &'static str,
}

/// The profile name for a build with or without debug assertions.
pub open spec fn spec_profile(debug_assertions: bool) -> Seq<char> {
    if debug_assertions {
        "debug"@
    } else {
        "release"@
    }
}

/// `northstar <version> (<sha>[-dirty], <profile>)`.
pub open spec fn spec_banner(info: BuildInfo) -> Seq<char> {
    "northstar "@ + info.version@ + " ("@ + info.git_sha@ + (if info.git_dirty {
        "-dirty"@
    } else {
        ""@
    }) + ", "@ + info.profile@ + ")"@
}

impl BuildInfo {
    /// The build info from the values the compiler saw: the crate version,
    /// the recorded git commit, the recorded working-tree flag (dirty
    /// exactly when it reads `true`) and whether debug assertions are on.
    pub fn current(
        version: &'static str,
        git_sha: &'static str,
        git_dirty_flag: &str,
        debug_assertions: bool,
    ) -> (info: Self)
        ensures
            info.version@ == version@,
            info.git_sha@ == git_sha@,
            info.git_dirty <==> git_dirty_flag@ == "true"@,
            info.profile@ == spec_profile(debug_assertions),
    {
        let profile: &'static str = if debug_assertions {
            "debug"
        } else {
            "release"
        };
        BuildInfo {
            version,
            git_sha,
            git_dirty: str_eq(git_dirty_flag, "true"),
            profile,
        }
    }

    /// The one-line banner `Display` prints.
    pub fn to_string(&self) -> (s: String)
        ensures
            s@ == spec_banner(*self),
    {
        let mut s = join(owned("northstar "), self.version);
        s = join(s, " (");
        s = join(s, self.git_sha);
        if self.git_dirty {
            s = join(s, "-dirty");
        } else {
            s = join(s, "");
        }
        s = join(s, ", ");
        s = join(s, self.profile);
        join(s, ")")
    }
}

} // verus!
