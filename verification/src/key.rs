//! The canonical, package-qualified identity of an asset.

use vstd::prelude::*;

use crate::package_id::PackageId;
use crate::puid::AssetPuid;
use crate::text::{join, join3};

verus! {

/// The canonical, package-qualified identity of an asset:
/// `(owning_package_identity, asset_puid)`.
///
/// Two keys are the same only if both the owning package and the PUID
/// match; identical PUIDs owned by different packages are distinct assets.
/// The asset category is deliberately not part of identity.
#[derive(Debug, PartialEq, Eq, Hash, PartialOrd, Ord)]
pub struct AssetKey {
    package: PackageId,
    puid: AssetPuid,
}

impl View for AssetKey {
    /// `(package, puid)`.
    type V = (Seq<char>, Seq<char>);

    closed spec fn view(&self) -> (Seq<char>, Seq<char>) {
        (self.package@, self.puid@)
    }
}

impl AssetKey {
    pub fn new(package: PackageId, puid: AssetPuid) -> (k: Self)
        ensures
            k@ == (package@, puid@),
    {
        AssetKey { package, puid }
    }

    pub fn package(&self) -> (p: &PackageId)
        ensures
            p@ == self@.0,
    {
        &self.package
    }

    pub fn puid(&self) -> (p: &AssetPuid)
        ensures
            p@ == self@.1,
    {
        &self.puid
    }

    /// `package/puid`, what `Display` prints.
    pub fn to_string(&self) -> (s: String)
        ensures
            s@ == self@.0 + "/"@ + self@.1,
    {
        join3(self.package.as_str(), "/", self.puid.as_str())
    }
}

impl Clone for AssetKey {
    fn clone(&self) -> (r: Self)
        ensures
            r@ == self@,
    {
        AssetKey { package: self.package.clone(), puid: self.puid.clone() }
    }
}

/// Asset identity is the package-qualified pair: two keys are equal exactly
/// when their packages are equal and their PUIDs are equal, so the same PUID
/// under different packages never names the same asset.
pub proof fn law_key_identity(a: AssetKey, b: AssetKey)
    ensures
        (a@ == b@) <==> (a@.0 == b@.0 && a@.1 == b@.1),
{
}

} // verus!
