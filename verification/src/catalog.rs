//! Where `northstar://<package-identity>/...` paths resolve to on disk, and
//! how logical asset paths are built and read back.

use vstd::prelude::*;

use crate::ident::{is_valid_segment, spec_validate_segment, IdentError};
use crate::package_id::{PackageId, PackageIdError};
use crate::text::{join, join3};

verus! {

/// `std::path::PathBuf`, carried through opaquely.
#[verifier::external_type_specification]
#[verifier::external_body]
pub struct ExPathBuf(std::path::PathBuf);

/// `PathBuf::clone` returns a copy equal to the path it was called on.
pub assume_specification[ <std::path::PathBuf as Clone>::clone ](p: &std::path::PathBuf) -> (r:
    std::path::PathBuf)
    ensures
        r == *p,
;

/// Where Northstar resolves `northstar://<package-identity>/...` paths to on
/// disk.
///
/// This first slice implements one backend: a loose development directory
/// holding one subdirectory per mounted package. Gameplay code never sees
/// this path, only the logical `northstar://` locators.
#[derive(Debug)]
pub struct PackageCatalog {
    root: std::path::PathBuf,
}

impl PackageCatalog {
    /// The directory the catalog was made with.
    pub closed spec fn spec_root(&self) -> std::path::PathBuf {
        self.root
    }

    /// A catalog backed by a loose directory of mounted packages, e.g.
    /// `root/basegame/pebble_sea_islands.map.nspkg`.
    pub fn loose_directory(root: std::path::PathBuf) -> (c: Self)
        ensures
            c.spec_root() == root,
    {
        PackageCatalog { root }
    }

    /// The directory the catalog was made with.
    pub fn root(&self) -> (r: &std::path::PathBuf)
        ensures
            *r == self.spec_root(),
    {
        &self.root
    }
}

impl Clone for PackageCatalog {
    fn clone(&self) -> (c: Self)
        ensures
            c.spec_root() == self.spec_root(),
    {
        PackageCatalog { root: self.root.clone() }
    }
}

/// The named asset source Northstar mounts its package catalog under.
pub const SOURCE_NAME: &'static str = "northstar";

/// `northstar://<package>/<filename>`.
pub open spec fn spec_asset_path(package: Seq<char>, filename: Seq<char>) -> Seq<char> {
    "northstar"@ + "://"@ + package + "/"@ + filename
}

/// Builds the logical `northstar://<package>/<filename>` path for one asset.
/// This is the only place that constructs the internal path shape.
pub fn asset_path_string(package: &PackageId, filename: &str) -> (p: String)
    ensures
        p@ == spec_asset_path(package@, filename@),
{
    let head = join3(SOURCE_NAME, "://", package.as_str());
    join(join(head, "/"), filename)
}

/// The owning package of an asset path could not be recovered.
#[derive(Debug, Clone, Copy, PartialEq, Eq)]
pub enum PackagePathError {
    /// The path has no first component (an asset at the mount root).
    NoPackageDirectory,
    /// The first component is not a valid package identity.
    InvalidPackageDirectory(PackageIdError),
}

/// Calls `Path::components` and converts each component with
/// `OsStr::to_string_lossy`, in order. The calls share one item because the
/// intermediate `OsStr` cannot be named here. How a path splits into
/// components depends on the platform, so nothing is stated about the
/// result.
#[verifier::external_body]
fn component_texts(path: &std::path::Path) -> Vec<String> {
    let mut texts = Vec::new();
    for c in path.components() {
        texts.push(c.as_os_str().to_string_lossy().into_owned());
    }
    texts
}

/// The owning package named by an asset path's first component: mounted
/// packages are one subdirectory per package under the catalog root, so the
/// owning package is always that component. The component must be a valid
/// package identity; [`package_id_from_first_component`] tests that before
/// calling.
pub fn package_id_from_component(first: &str) -> (id: PackageId)
    requires
        is_valid_segment(first@),
    ensures
        id@ == first@,
{
    match PackageId::new(first) {
        Ok(id) => id,
        Err(_) => vstd::pervasive::unreached(),
    }
}

/// The owning package given the text of an asset path's first component
/// (`None` when the path has none). A path without a first component, or
/// whose first component is not a valid package identity, is a layout the
/// mounted source never produces; it is reported instead of recovered.
pub fn package_id_from_first_component(first: Option<&str>) -> (res: Result<
    PackageId,
    PackagePathError,
>)
    ensures
        first is None ==> res == Err::<PackageId, PackagePathError>(
            PackagePathError::NoPackageDirectory,
        ),
        first matches Some(s) ==> (is_valid_segment(s@) ==> (res matches Ok(id) && id@ == s@)),
        first matches Some(s) ==> (!is_valid_segment(s@) ==> (res matches Err(
            PackagePathError::InvalidPackageDirectory(e),
        ) && spec_validate_segment(s@) == Err::<(), IdentError>(e.cause()))),
{
    match first {
        None => Err(PackagePathError::NoPackageDirectory),
        Some(s) => match PackageId::new(s) {
            Err(e) => Err(PackagePathError::InvalidPackageDirectory(e)),
            Ok(_) => Ok(package_id_from_component(s)),
        },
    }
}

/// `res` is what [`package_id_from_first_component`] decides for the first
/// of `components` (or for none, when there are none).
pub open spec fn decided_by_first(
    res: Result<PackageId, PackagePathError>,
    components: Seq<Seq<char>>,
) -> bool {
    &&& components.len() == 0 ==> res == Err::<PackageId, PackagePathError>(
        PackagePathError::NoPackageDirectory,
    )
    &&& components.len() > 0 && is_valid_segment(components[0]) ==> (res matches Ok(id) && id@
        == components[0])
    &&& components.len() > 0 && !is_valid_segment(components[0]) ==> (res matches Err(
        PackagePathError::InvalidPackageDirectory(e),
    ) && spec_validate_segment(components[0]) == Err::<(), IdentError>(e.cause()))
}

/// Recovers the owning package from an asset's path within the
/// `northstar` source: the package its first component names. How the path
/// splits into components is up to the platform's path rules, so the result
/// is stated for whatever components they give: the decision of
/// [`package_id_from_first_component`] on the first of them.
pub fn package_id_from_path(path: &std::path::Path) -> (res: Result<PackageId, PackagePathError>)
    ensures
        exists|components: Seq<Seq<char>>| #[trigger] decided_by_first(res, components),
{
    let texts = component_texts(path);
    let ghost components = texts@.map_values(|t: String| t@);
    let first = if texts.len() > 0 {
        Some(texts[0].as_str())
    } else {
        None
    };
    let res = package_id_from_first_component(first);
    assert(texts.len() > 0 ==> components[0] == texts@[0]@);
    assert(decided_by_first(res, components));
    res
}

} // verus!
