//! The durable identity of a content package.

use vstd::prelude::*;

use crate::ident::{ident_error_text, is_valid_segment, spec_validate_segment, validate_segment, IdentError};
use crate::text::join;

verus! {

/// The durable identity of a Northstar content package.
///
/// The permanent encoding and issuance policy for package identities is
/// deliberately deferred; every call site depends on `PackageId`, never on a
/// distribution id, a filesystem path or a display name. For now a
/// `PackageId` is a filename-safe segment: non-empty, ASCII alphanumeric plus
/// `_` and `-`, with no `.` (the `.nspkg` filename grammar reserves dots).
#[derive(Debug, PartialEq, Eq, Hash, PartialOrd, Ord)]
pub struct PackageId(String);

/// A [`PackageId`] failed validation.
#[derive(Debug, Clone, Copy, PartialEq, Eq)]
pub struct PackageIdError(IdentError);

impl View for PackageId {
    type V = Seq<char>;

    closed spec fn view(&self) -> Seq<char> {
        self.0@
    }
}

impl PackageId {
    #[verifier::type_invariant]
    closed spec fn wf(self) -> bool {
        is_valid_segment(self.0@)
    }

    /// Validates and wraps a raw string as a package identity.
    pub fn new(raw: &str) -> (res: Result<Self, PackageIdError>)
        ensures
            res is Ok <==> is_valid_segment(raw@),
            res matches Ok(id) ==> id@ == raw@,
            res matches Err(e) ==> spec_validate_segment(raw@) == Err::<(), IdentError>(e.cause()),
    {
        match validate_segment(raw) {
            Ok(()) => Ok(PackageId(raw.to_owned())),
            Err(e) => Err(PackageIdError(e)),
        }
    }

    /// Borrows the underlying string.
    pub fn as_str(&self) -> (s: &str)
        ensures
            s@ == self@,
            is_valid_segment(self@),
    {
        proof {
            use_type_invariant(self);
        }
        self.0.as_str()
    }

    /// The identity as an owned string (what `Display` prints).
    pub fn to_string(&self) -> (s: String)
        ensures
            s@ == self@,
    {
        self.0.clone()
    }
}

impl PackageIdError {
    /// Why validation failed.
    pub closed spec fn cause(self) -> IdentError {
        self.0
    }

    /// Human-readable description: `invalid package id: ` and the cause.
    pub fn message(&self) -> (m: String)
        ensures
            m@ == "invalid package id: "@ + ident_error_text(self.cause()),
    {
        let cause = self.0.message();
        join(crate::text::owned("invalid package id: "), cause.as_str())
    }

    /// Why validation failed.
    pub fn reason(&self) -> (e: IdentError)
        ensures
            e == self.cause(),
    {
        self.0
    }
}

impl Clone for PackageId {
    fn clone(&self) -> (r: Self)
        ensures
            r@ == self@,
    {
        proof {
            use_type_invariant(self);
        }
        PackageId(self.0.clone())
    }
}

impl core::str::FromStr for PackageId {
    type Err = PackageIdError;

    /// The same as [`PackageId::new`].
    fn from_str(s: &str) -> (res: Result<Self, Self::Err>)
        ensures
            res is Ok <==> is_valid_segment(s@),
            res matches Ok(id) ==> id@ == s@,
            res matches Err(e) ==> spec_validate_segment(s@) == Err::<(), IdentError>(e.cause()),
    {
        Self::new(s)
    }
}

} // verus!
