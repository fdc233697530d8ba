//! Container format/schema versions.

use vstd::prelude::*;

use crate::text::{decimal, decimal_text, join};

verus! {

/// The version number of the experimental version-zero layout.
pub const EXPERIMENTAL_V0_NUMBER: u16 = 0;

/// A container format/schema version.
///
/// Every reader and writer path is explicit about which version it speaks
/// rather than assuming "the current format".
#[derive(Debug, Clone, Copy, PartialEq, Eq, PartialOrd, Ord, Hash)]
pub struct FormatVersion(pub u16);

impl FormatVersion {
    /// The experimental version-zero container layout. Not a stability
    /// promise.
    pub fn experimental_v0() -> (v: FormatVersion)
        ensures
            v.0 == EXPERIMENTAL_V0_NUMBER,
    {
        FormatVersion(EXPERIMENTAL_V0_NUMBER)
    }

    /// `v` followed by the version number, what `Display` prints.
    pub fn to_string(&self) -> (s: String)
        ensures
            s@ == "v"@ + decimal_text(self.0 as u64),
    {
        let n = decimal(self.0 as u64);
        join(crate::text::owned("v"), n.as_str())
    }
}

} // verus!
