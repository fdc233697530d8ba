//! An asset's open-ended category label.

use vstd::prelude::*;

use crate::ident::{ident_error_text, is_valid_segment, spec_validate_segment, validate_segment, IdentError};
use crate::text::join;

verus! {

/// An asset's category label, e.g. `map`, `mission`, `prefab`.
///
/// A category is classification, not identity: it says how to decode an
/// asset's bytes, not which asset it is. It is deliberately open-ended and
/// never a closed enum: an unrecognized but well-formed label is valid.
/// Validated the same way as `PackageId` and `AssetPuid`.
#[derive(Debug, PartialEq, Eq, Hash, PartialOrd, Ord)]
pub struct AssetCategory(String);

/// A [`AssetCategory`] failed validation.
#[derive(Debug, Clone, Copy, PartialEq, Eq)]
pub struct AssetCategoryError(IdentError);

impl View for AssetCategory {
    type V = Seq<char>;

    closed spec fn view(&self) -> Seq<char> {
        self.0@
    }
}

impl AssetCategory {
    #[verifier::type_invariant]
    closed spec fn wf(self) -> bool {
        is_valid_segment(self.0@)
    }

    /// Validates and wraps a raw string as a asset category.
    pub fn new(raw: &str) -> (res: Result<Self, AssetCategoryError>)
        ensures
            res is Ok <==> is_valid_segment(raw@),
            res matches Ok(id) ==> id@ == raw@,
            res matches Err(e) ==> spec_validate_segment(raw@) == Err::<(), IdentError>(e.cause()),
    {
        match validate_segment(raw) {
            Ok(()) => Ok(AssetCategory(raw.to_owned())),
            Err(e) => Err(AssetCategoryError(e)),
        }
    }

    /// Borrows the underlying string.
    pub fn as_str(&self) -> (s: &str)
        ensures
            s@ == self@,
            is_valid_segment(self@),
    {
        proof {
            use_type_invariant(self);
        }
        self.0.as_str()
    }

    /// The identity as an owned string (what `Display` prints).
    pub fn to_string(&self) -> (s: String)
        ensures
            s@ == self@,
    {
        self.0.clone()
    }
}

impl AssetCategoryError {
    /// Why validation failed.
    pub closed spec fn cause(self) -> IdentError {
        self.0
    }

    /// Human-readable description: `invalid asset category: ` and the cause.
    pub fn message(&self) -> (m: String)
        ensures
            m@ == "invalid asset category: "@ + ident_error_text(self.cause()),
    {
        let cause = self.0.message();
        join(crate::text::owned("invalid asset category: "), cause.as_str())
    }

    /// Why validation failed.
    pub fn reason(&self) -> (e: IdentError)
        ensures
            e == self.cause(),
    {
        self.0
    }
}

impl Clone for AssetCategory {
    fn clone(&self) -> (r: Self)
        ensures
            r@ == self@,
    {
        proof {
            use_type_invariant(self);
        }
        AssetCategory(self.0.clone())
    }
}

impl core::str::FromStr for AssetCategory {
    type Err = AssetCategoryError;

    /// The same as [`AssetCategory::new`].
    fn from_str(s: &str) -> (res: Result<Self, Self::Err>)
        ensures
            res is Ok <==> is_valid_segment(s@),
            res matches Ok(id) ==> id@ == s@,
            res matches Err(e) ==> spec_validate_segment(s@) == Err::<(), IdentError>(e.cause()),
    {
        Self::new(s)
    }
}

} // verus!
