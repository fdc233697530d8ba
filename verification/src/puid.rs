//! An asset's package-local persistent unique identifier.

use vstd::prelude::*;

use crate::ident::{ident_error_text, is_valid_segment, spec_validate_segment, validate_segment, IdentError};
use crate::text::join;

verus! {

/// An asset's package-local persistent unique identifier.
///
/// An `AssetPuid` is unique *within its owning package only*: two packages
/// may contain assets with the same PUID, and those assets stay distinct
/// because canonical identity is the package-qualified pair (`AssetKey`).
/// Validated the same way as `PackageId`: non-empty, ASCII alphanumeric plus
/// `_` and `-`, no `.`.
#[derive(Debug, PartialEq, Eq, Hash, PartialOrd, Ord)]
pub struct AssetPuid(String);

/// A [`AssetPuid`] failed validation.
#[derive(Debug, Clone, Copy, PartialEq, Eq)]
pub struct AssetPuidError(IdentError);

impl View for AssetPuid {
    type V = Seq<char>;

    closed spec fn view(&self) -> Seq<char> {
        self.0@
    }
}

impl AssetPuid {
    #[verifier::type_invariant]
    closed spec fn wf(self) -> bool {
        is_valid_segment(self.0@)
    }

    /// Validates and wraps a raw string as a asset puid.
    pub fn new(raw: &str) -> (res: Result<Self, AssetPuidError>)
        ensures
            res is Ok <==> is_valid_segment(raw@),
            res matches Ok(id) ==> id@ == raw@,
            res matches Err(e) ==> spec_validate_segment(raw@) == Err::<(), IdentError>(e.cause()),
    {
        match validate_segment(raw) {
            Ok(()) => Ok(AssetPuid(raw.to_owned())),
            Err(e) => Err(AssetPuidError(e)),
        }
    }

    /// Borrows the underlying string.
    pub fn as_str(&self) -> (s: &str)
        ensures
            s@ == self@,
            is_valid_segment(self@),
    {
        proof {
            use_type_invariant(self);
        }
        self.0.as_str()
    }

    /// The identity as an owned string (what `Display` prints).
    pub fn to_string(&self) -> (s: String)
        ensures
            s@ == self@,
    {
        self.0.clone()
    }
}

impl AssetPuidError {
    /// Why validation failed.
    pub closed spec fn cause(self) -> IdentError {
        self.0
    }

    /// Human-readable description: `invalid asset puid: ` and the cause.
    pub fn message(&self) -> (m: String)
        ensures
            m@ == "invalid asset puid: "@ + ident_error_text(self.cause()),
    {
        let cause = self.0.message();
        join(crate::text::owned("invalid asset puid: "), cause.as_str())
    }

    /// Why validation failed.
    pub fn reason(&self) -> (e: IdentError)
        ensures
            e == self.cause(),
    {
        self.0
    }
}

impl Clone for AssetPuid {
    fn clone(&self) -> (r: Self)
        ensures
            r@ == self@,
    {
        proof {
            use_type_invariant(self);
        }
        AssetPuid(self.0.clone())
    }
}

impl core::str::FromStr for AssetPuid {
    type Err = AssetPuidError;

    /// The same as [`AssetPuid::new`].
    fn from_str(s: &str) -> (res: Result<Self, Self::Err>)
        ensures
            res is Ok <==> is_valid_segment(s@),
            res matches Ok(id) ==> id@ == s@,
            res matches Err(e) ==> spec_validate_segment(s@) == Err::<(), IdentError>(e.cause()),
    {
        Self::new(s)
    }
}

} // verus!
