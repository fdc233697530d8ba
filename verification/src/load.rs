//! The decisions the `.nspkg` asset loader makes before a decoder ever sees
//! an asset, and how decoders build references to other assets.
//!
//! Reading the asset's bytes and handing the validated container to a
//! decoder are the engine's I/O; everything decided between them is here.

use vstd::prelude::*;

use crate::catalog::{asset_path_string, spec_asset_path};
use crate::category::AssetCategory;
use crate::container::{spec_parse, ContainerContent, ContainerError, ContainerFault, ContainerReader};
use crate::filename::{
    classify_result_view, law_classify_asset_file_name, nspkg_extension, spec_classify,
    ClassifiedFilename, ClassifiedView, ClassifyError, ClassifyFault,
};
use crate::ident::{is_valid_segment, spec_validate_segment, IdentError};
use crate::key::AssetKey;
use crate::package_id::PackageId;
use crate::puid::{AssetPuid, AssetPuidError};
use crate::cli::{classification_text, spec_classification_text};
use crate::text::{join, join3, owned, str_eq};

verus! {

/// Building an `.nspkg` reference inside a decoder failed.
#[derive(Debug, Clone, Copy, PartialEq, Eq)]
pub enum NorthstarReferenceError {
    /// The referenced PUID is not a valid identity segment.
    InvalidPuid(AssetPuidError),
    /// The requested asset type was never registered with a category, so it
    /// cannot be referenced from a decoder. Carries the type's name.
    UnregisteredType(&'static str),
}

/// `<puid>.<category>.nspkg`.
pub open spec fn spec_asset_file_name(puid: Seq<char>, category: Seq<char>) -> Seq<char> {
    puid + seq!['.'] + category + nspkg_extension()
}

/// The filename of an individually packaged asset.
pub fn asset_file_name(puid: &AssetPuid, category: &AssetCategory) -> (f: String)
    ensures
        f@ == spec_asset_file_name(puid@, category@),
{
    let f = join(join3(puid.as_str(), ".", category.as_str()), ".nspkg");
    proof {
        reveal_strlit(".");
        reveal_strlit(".nspkg");
    }
    assert(".nspkg"@ =~= nspkg_extension());
    f
}

/// The logical path of the asset `key` when its type is registered under
/// `category`: `northstar://<package>/<puid>.<category>.nspkg`.
pub fn asset_reference_path(key: &AssetKey, category: &AssetCategory) -> (p: String)
    ensures
        p@ == spec_asset_path(key@.0, spec_asset_file_name(key@.1, category@)),
{
    let filename = asset_file_name(key.puid(), category);
    asset_path_string(key.package(), filename.as_str())
}

/// Every reference path names a file that classifies back as exactly the
/// referenced asset: the PUID and the category survive the trip through the
/// filename.
pub proof fn law_reference_file_name_classifies_back(puid: Seq<char>, category: Seq<char>)
    requires
        is_valid_segment(puid),
        is_valid_segment(category),
    ensures
        spec_classify(spec_asset_file_name(puid, category)) == Ok::<ClassifiedView, ClassifyFault>(
            ClassifiedView::Asset(puid, category),
        ),
{
    law_classify_asset_file_name(puid, category);
}

/// The path a decoder loads for the (possibly cross-package) asset `key` of
/// an asset type named `asset_type`, given the category that type is
/// registered under (`registered`, `None` when it is not registered).
pub fn reference_path(key: &AssetKey, registered: Option<AssetCategory>, asset_type: &'static str) -> (res:
    Result<String, NorthstarReferenceError>)
    ensures
        registered is None ==> res == Err::<String, NorthstarReferenceError>(
            NorthstarReferenceError::UnregisteredType(asset_type),
        ),
        registered matches Some(c) ==> (res matches Ok(p) && p@ == spec_asset_path(
            key@.0,
            spec_asset_file_name(key@.1, c@),
        )),
{
    match registered {
        None => Err(NorthstarReferenceError::UnregisteredType(asset_type)),
        Some(category) => Ok(asset_reference_path(key, &category)),
    }
}

/// The path a decoder loads for the asset `puid` of the *current* owning
/// package: `load_local` means the owning package, never a global search
/// path.
pub fn local_reference_path(
    owning_package: &PackageId,
    puid: &str,
    registered: Option<AssetCategory>,
    asset_type: &'static str,
) -> (res: Result<String, NorthstarReferenceError>)
    ensures
        !is_valid_segment(puid@) ==> (res matches Err(NorthstarReferenceError::InvalidPuid(e))
            && spec_validate_segment(puid@) == Err::<(), IdentError>(e.cause())),
        is_valid_segment(puid@) && registered is None ==> res == Err::<
            String,
            NorthstarReferenceError,
        >(NorthstarReferenceError::UnregisteredType(asset_type)),
        is_valid_segment(puid@) ==> (registered matches Some(c) ==> (res matches Ok(p) && p@
            == spec_asset_path(owning_package@, spec_asset_file_name(puid@, c@)))),
{
    let puid = match AssetPuid::new(puid) {
        Ok(p) => p,
        Err(e) => {
            return Err(NorthstarReferenceError::InvalidPuid(e));
        },
    };
    let key = AssetKey::new(owning_package.clone(), puid);
    reference_path(&key, registered, asset_type)
}

/// The human-readable description of a reference failure.
pub open spec fn reference_error_text(e: NorthstarReferenceError) -> Seq<char> {
    match e {
        NorthstarReferenceError::InvalidPuid(p) => "invalid asset puid: "@ + "invalid asset puid: "@
            + crate::ident::ident_error_text(p.cause()),
        NorthstarReferenceError::UnregisteredType(t) => "requested type `"@ + t@
            + "` was never registered via register_nspkg_asset; it cannot be referenced from a decoder"@,
    }
}

impl NorthstarReferenceError {
    /// Human-readable description of the failure.
    pub fn message(&self) -> (m: String)
        ensures
            m@ == reference_error_text(*self),
    {
        match self {
            NorthstarReferenceError::InvalidPuid(p) => {
                let inner = p.message();
                let r = join(owned("invalid asset puid: "), inner.as_str());
                assert(r@ =~= reference_error_text(*self));
                r
            },
            NorthstarReferenceError::UnregisteredType(t) => {
                let r = join(
                    join3("requested type `", t, "` was never registered via register_nspkg_asset; "),
                    "it cannot be referenced from a decoder",
                );
                proof {
                    reveal_strlit("` was never registered via register_nspkg_asset; ");
                    reveal_strlit("it cannot be referenced from a decoder");
                    reveal_strlit(
                        "` was never registered via register_nspkg_asset; it cannot be referenced from a decoder",
                    );
                }
                assert(r@ =~= reference_error_text(*self));
                r
            },
        }
    }
}

/// Everything that can go wrong loading one `.nspkg` asset before a decoder
/// sees it (reading the bytes and decoding them are reported by the
/// engine).
#[derive(Debug, PartialEq, Eq)]
#[allow(inconsistent_fields)]
pub enum NspkgLoadError {
    /// The path does not classify as an `.nspkg` filename.
    Classify { path: String, source: ClassifyError },
    /// The path names a complete package, not an individually loadable
    /// asset.
    NotAnAsset { path: String },
    /// The filename's category is not the one this loader is registered
    /// for.
    CategoryMismatch { path: String, expected: AssetCategory, found: AssetCategory },
    /// The container is malformed.
    Container { path: String, source: ContainerError },
    /// The container's header names a different identity than its
    /// filename.
    IdentityMismatch {
        path: String,
        from_filename: ClassifiedFilename,
        from_container: ClassifiedFilename,
    },
}

/// The mathematical content of an [`NspkgLoadError`].
pub enum LoadFault {
    Classify(Seq<char>, ClassifyFault),
    NotAnAsset(Seq<char>),
    CategoryMismatch(Seq<char>, Seq<char>, Seq<char>),
    Container(Seq<char>, ContainerFault),
    IdentityMismatch(Seq<char>, ClassifiedView, ClassifiedView),
}

impl View for NspkgLoadError {
    type V = LoadFault;

    open spec fn view(&self) -> LoadFault {
        match self {
            NspkgLoadError::Classify { path, source } => LoadFault::Classify(path@, source@),
            NspkgLoadError::NotAnAsset { path } => LoadFault::NotAnAsset(path@),
            NspkgLoadError::CategoryMismatch { path, expected, found } => LoadFault::CategoryMismatch(
                path@,
                expected@,
                found@,
            ),
            NspkgLoadError::Container { path, source } => LoadFault::Container(path@, source@),
            NspkgLoadError::IdentityMismatch { path, from_filename, from_container } =>
                LoadFault::IdentityMismatch(path@, from_filename@, from_container@),
        }
    }
}

/// What the loader decides from the filename alone, before touching the
/// bytes: the asset's PUID when the name classifies as an asset of the
/// loader's category.
pub open spec fn spec_check_file_name(
    path: Seq<char>,
    classified: Result<ClassifiedView, ClassifyFault>,
    expected: Seq<char>,
) -> Result<Seq<char>, LoadFault> {
    match classified {
        Err(e) => Err(LoadFault::Classify(path, e)),
        Ok(ClassifiedView::Package(_)) => Err(LoadFault::NotAnAsset(path)),
        Ok(ClassifiedView::Asset(puid, category)) => if category != expected {
            Err(LoadFault::CategoryMismatch(path, expected, category))
        } else {
            Ok(puid)
        },
    }
}

/// The loader's filename check. `path` is the asset path as displayed in
/// errors; `classified` is the classification of its filename.
pub fn check_file_name(
    path: &str,
    classified: Result<ClassifiedFilename, ClassifyError>,
    expected: &AssetCategory,
) -> (res: Result<AssetPuid, NspkgLoadError>)
    ensures
        match spec_check_file_name(path@, classify_result_view(classified), expected@) {
            Ok(puid) => res matches Ok(p) && p@ == puid,
            Err(f) => res matches Err(e) && e@ == f,
        },
{
    match classified {
        Err(source) => Err(NspkgLoadError::Classify { path: owned(path), source }),
        Ok(ClassifiedFilename::Package { .. }) => Err(NspkgLoadError::NotAnAsset { path: owned(path) }),
        Ok(ClassifiedFilename::Asset { puid, category }) => {
            if !str_eq(category.as_str(), expected.as_str()) {
                return Err(
                    NspkgLoadError::CategoryMismatch {
                        path: owned(path),
                        expected: expected.clone(),
                        found: category,
                    },
                );
            }
            Ok(puid)
        },
    }
}

/// What the loader decides from the bytes: the parsed container, unless it
/// is malformed or its header's self-identity is not exactly the asset the
/// filename names (`puid` of category `expected`). A header naming a
/// complete package never matches.
pub open spec fn spec_check_container(
    path: Seq<char>,
    bytes: Seq<u8>,
    puid: Seq<char>,
    expected: Seq<char>,
) -> Result<ContainerContent, LoadFault> {
    match spec_parse(bytes) {
        Err(e) => Err(LoadFault::Container(path, e)),
        Ok(c) => if c.identity == ClassifiedView::Asset(puid, expected) {
            Ok(c)
        } else {
            Err(LoadFault::IdentityMismatch(path, ClassifiedView::Asset(puid, expected), c.identity))
        },
    }
}

/// The loader's container check: parse the bytes and make sure the
/// container's self-reported identity is the asset the filename names, so
/// that a decoder only ever sees a container whose identity was checked
/// against the path it was loaded from.
pub fn check_container<'a>(
    path: &str,
    bytes: &'a [u8],
    puid: &AssetPuid,
    expected: &AssetCategory,
) -> (res: Result<ContainerReader<'a>, NspkgLoadError>)
    ensures
        match spec_check_container(path@, bytes@, puid@, expected@) {
            Ok(c) => res matches Ok(r) && r@ == c,
            Err(f) => res matches Err(e) && e@ == f,
        },
{
    let container = match ContainerReader::parse(bytes) {
        Ok(c) => c,
        Err(source) => {
            return Err(NspkgLoadError::Container { path: owned(path), source });
        },
    };
    let agrees = match container.self_identity() {
        ClassifiedFilename::Asset { puid: p, category } => str_eq(p.as_str(), puid.as_str())
            && str_eq(category.as_str(), expected.as_str()),
        ClassifiedFilename::Package { .. } => false,
    };
    if !agrees {
        return Err(
            NspkgLoadError::IdentityMismatch {
                path: owned(path),
                from_filename: ClassifiedFilename::Asset {
                    puid: puid.clone(),
                    category: expected.clone(),
                },
                from_container: container.self_identity().clone(),
            },
        );
    }
    Ok(container)
}

impl NspkgLoadError {
    /// Human-readable description of the failure.
    pub fn message(&self) -> (m: String)
        ensures
            m@ == load_error_text(self@),
    {
        match self {
            NspkgLoadError::Classify { path, source } => {
                let s = source.message();
                let a = join(join3("could not classify \"", path.as_str(), "\" as an .nspkg asset: "), s.as_str());
                a
            },
            NspkgLoadError::NotAnAsset { path } => join(
                join3("\"", path.as_str(), "\" classifies as a complete package, "),
                "not an individually loadable asset",
            ),
            NspkgLoadError::CategoryMismatch { path, expected, found } => {
                let a = join(join3("\"", path.as_str(), "\" has category \""), found.as_str());
                let b = join(join(a, "\" but this loader is registered for category \""), expected.as_str());
                join(b, "\"")
            },
            NspkgLoadError::Container { path, source } => {
                let s = source.message();
                join(join3("malformed .nspkg container at \"", path.as_str(), "\": "), s.as_str())
            },
            NspkgLoadError::IdentityMismatch { path, from_filename, from_container } => {
                match (from_filename, from_container) {
                    (
                        ClassifiedFilename::Asset { puid: p, category: expected },
                        ClassifiedFilename::Asset { puid: q, category: found },
                    ) => {
                        if str_eq(p.as_str(), q.as_str()) {
                            let a = join(
                                join3("\"", path.as_str(), "\" classifies as category \""),
                                expected.as_str(),
                            );
                            let b = join(
                                join(a, "\" but its container header self-identifies as category \""),
                                found.as_str(),
                            );
                            return join(b, "\" \u{2014} refusing to load a mismatched container");
                        }
                    },
                    _ => {},
                }
                let f = classification_text(from_filename);
                let c = classification_text(from_container);
                let a = join(join3("\"", path.as_str(), "\" classifies as "), f.as_str());
                let b = join(join(a, " but its container header self-identifies as "), c.as_str());
                join(b, " \u{2014} refusing to load a mismatched container")
            },
        }
    }
}

/// The human-readable description of a load failure.
pub open spec fn load_error_text(f: LoadFault) -> Seq<char> {
    match f {
        LoadFault::Classify(p, e) => "could not classify \""@ + p + "\" as an .nspkg asset: "@
            + crate::filename::classify_error_text(e),
        LoadFault::NotAnAsset(p) => "\""@ + p + "\" classifies as a complete package, "@
            + "not an individually loadable asset"@,
        LoadFault::CategoryMismatch(p, expected, found) => "\""@ + p + "\" has category \""@ + found
            + "\" but this loader is registered for category \""@ + expected + "\""@,
        LoadFault::Container(p, e) => "malformed .nspkg container at \""@ + p + "\": "@
            + crate::container::container_error_text(e),
        LoadFault::IdentityMismatch(p, from_filename, from_container) => match (
            from_filename,
            from_container,
        ) {
            (ClassifiedView::Asset(a, expected), ClassifiedView::Asset(b, found)) if a == b => "\""@
                + p + "\" classifies as category \""@ + expected
                + "\" but its container header self-identifies as category \""@ + found
                + "\" \u{2014} refusing to load a mismatched container"@,
            _ => "\""@ + p + "\" classifies as "@ + spec_classification_text(from_filename)
                + " but its container header self-identifies as "@ + spec_classification_text(
                from_container,
            ) + " \u{2014} refusing to load a mismatched container"@,
        },
    }
}

} // verus!
