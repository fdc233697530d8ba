//! The `.nspkg` filename grammar and its classifier.
//!
//! ```text
//! <package_puid>.nspkg
//! <asset_puid>.<asset_category>.nspkg
//! ```
//!
//! Parsing goes from the right: after removing the `.nspkg` suffix, a final
//! `.` separates an asset PUID from its category. With no remaining `.`, the
//! file is a complete package. Classification never opens or reads the
//! file; it works on the filename text alone.

use vstd::prelude::*;
use vstd::string::StrSliceExecFns;

use crate::category::{AssetCategory, AssetCategoryError};
use crate::ident::{
    ident_error_text, is_segment_char, is_valid_segment, lemma_validate_ok, spec_validate_segment,
    IdentError,
};
use crate::package_id::{PackageId, PackageIdError};
use crate::puid::{AssetPuid, AssetPuidError};
use crate::text::{chars_of, join, join3, owned};

verus! {

/// The suffix every `.nspkg` filename carries.
pub const EXTENSION: &'static str = ".nspkg";

/// The characters of [`EXTENSION`].
pub open spec fn nspkg_extension() -> Seq<char> {
    seq!['.', 'n', 's', 'p', 'k', 'g']
}

/// The two `.nspkg` filename forms, distinguishable without reading the
/// file.
#[derive(Debug, PartialEq, Eq)]
#[allow(inconsistent_fields)]
pub enum ClassifiedFilename {
    /// `<package_puid>.nspkg`: a complete, mountable content package.
    Package { puid: PackageId },
    /// `<asset_puid>.<category>.nspkg`: one individually packaged asset. The
    /// category is preserved even when no loader for it is registered.
    Asset { puid: AssetPuid, category: AssetCategory },
}

/// The mathematical content of a [`ClassifiedFilename`].
pub enum ClassifiedView {
    Package(Seq<char>),
    Asset(Seq<char>, Seq<char>),
}

impl View for ClassifiedFilename {
    type V = ClassifiedView;

    open spec fn view(&self) -> ClassifiedView {
        match self {
            ClassifiedFilename::Package { puid } => ClassifiedView::Package(puid@),
            ClassifiedFilename::Asset { puid, category } => ClassifiedView::Asset(
                puid@,
                category@,
            ),
        }
    }
}

impl Clone for ClassifiedFilename {
    fn clone(&self) -> (r: Self)
        ensures
            r@ == self@,
    {
        match self {
            ClassifiedFilename::Package { puid } => ClassifiedFilename::Package { puid: puid.clone() },
            ClassifiedFilename::Asset { puid, category } => ClassifiedFilename::Asset {
                puid: puid.clone(),
                category: category.clone(),
            },
        }
    }
}

/// A filename could not be classified under the `.nspkg` grammar.
/// Malformed names never fall back to guessing or normalizing.
#[derive(Debug, Clone, Copy, PartialEq, Eq)]
pub enum ClassifyError {
    MissingExtension,
    NotUtf8Filename,
    InvalidPackagePuid(PackageIdError),
    InvalidAssetPuid(AssetPuidError),
    InvalidCategory(AssetCategoryError),
}

/// The mathematical content of a [`ClassifyError`]: the variant and the
/// segment-validation failure it carries.
pub enum ClassifyFault {
    MissingExtension,
    NotUtf8Filename,
    InvalidPackagePuid(IdentError),
    InvalidAssetPuid(IdentError),
    InvalidCategory(IdentError),
}

impl View for ClassifyError {
    type V = ClassifyFault;

    open spec fn view(&self) -> ClassifyFault {
        match self {
            ClassifyError::MissingExtension => ClassifyFault::MissingExtension,
            ClassifyError::NotUtf8Filename => ClassifyFault::NotUtf8Filename,
            ClassifyError::InvalidPackagePuid(e) => ClassifyFault::InvalidPackagePuid(e.cause()),
            ClassifyError::InvalidAssetPuid(e) => ClassifyFault::InvalidAssetPuid(e.cause()),
            ClassifyError::InvalidCategory(e) => ClassifyFault::InvalidCategory(e.cause()),
        }
    }
}

/// The human-readable description of each classification failure.
pub open spec fn classify_error_text(f: ClassifyFault) -> Seq<char> {
    match f {
        ClassifyFault::MissingExtension => "filename does not end in \".nspkg\""@,
        ClassifyFault::NotUtf8Filename => "path has no UTF-8 filename component"@,
        ClassifyFault::InvalidPackagePuid(e) => "malformed .nspkg filename: "@
            + "invalid package id: "@ + ident_error_text(e),
        ClassifyFault::InvalidAssetPuid(e) => "malformed .nspkg filename: "@
            + "invalid asset puid: "@ + ident_error_text(e),
        ClassifyFault::InvalidCategory(e) => "malformed .nspkg filename: "@
            + "invalid asset category: "@ + ident_error_text(e),
    }
}

impl ClassifyError {
    /// Human-readable description of the failure.
    pub fn message(&self) -> (m: String)
        ensures
            m@ == classify_error_text(self@),
    {
        match self {
            ClassifyError::MissingExtension => owned("filename does not end in \".nspkg\""),
            ClassifyError::NotUtf8Filename => owned("path has no UTF-8 filename component"),
            ClassifyError::InvalidPackagePuid(e) => {
                let m = e.message();
                join(owned("malformed .nspkg filename: "), m.as_str())
            },
            ClassifyError::InvalidAssetPuid(e) => {
                let m = e.message();
                join(owned("malformed .nspkg filename: "), m.as_str())
            },
            ClassifyError::InvalidCategory(e) => {
                let m = e.message();
                join(owned("malformed .nspkg filename: "), m.as_str())
            },
        }
    }
}

/// The view of a classification result.
pub open spec fn classify_result_view(r: Result<ClassifiedFilename, ClassifyError>) -> Result<
    ClassifiedView,
    ClassifyFault,
> {
    match r {
        Ok(c) => Ok(c@),
        Err(e) => Err(e@),
    }
}

/// True when `f` ends in `.nspkg`.
pub open spec fn has_nspkg_extension(f: Seq<char>) -> bool {
    f.len() >= 6 && f.subrange(f.len() - 6, f.len() as int) == nspkg_extension()
}

/// Index of the last `.` in `s`, or `-1` when there is none.
pub open spec fn last_dot(s: Seq<char>) -> int
    decreases s.len(),
{
    if s.len() == 0 {
        -1
    } else if s.last() == '.' {
        s.len() - 1
    } else {
        last_dot(s.drop_last())
    }
}

/// What classifying the filename `f` yields.
pub open spec fn spec_classify(f: Seq<char>) -> Result<ClassifiedView, ClassifyFault> {
    if !has_nspkg_extension(f) {
        Err(ClassifyFault::MissingExtension)
    } else {
        let stem = f.subrange(0, f.len() - 6);
        let d = last_dot(stem);
        if d < 0 {
            match spec_validate_segment(stem) {
                Ok(_) => Ok(ClassifiedView::Package(stem)),
                Err(e) => Err(ClassifyFault::InvalidPackagePuid(e)),
            }
        } else {
            let puid = stem.subrange(0, d);
            let category = stem.subrange(d + 1, stem.len() as int);
            match spec_validate_segment(puid) {
                Err(e) => Err(ClassifyFault::InvalidAssetPuid(e)),
                Ok(_) => match spec_validate_segment(category) {
                    Err(e) => Err(ClassifyFault::InvalidCategory(e)),
                    Ok(_) => Ok(ClassifiedView::Asset(puid, category)),
                },
            }
        }
    }
}

/// The filename a classification corresponds to.
pub open spec fn spec_file_name(c: ClassifiedView) -> Seq<char> {
    match c {
        ClassifiedView::Package(p) => p + nspkg_extension(),
        ClassifiedView::Asset(p, k) => p + seq!['.'] + k + nspkg_extension(),
    }
}

proof fn lemma_last_dot_bounds(s: Seq<char>)
    ensures
        -1 <= last_dot(s) < s.len(),
        last_dot(s) >= 0 ==> s[last_dot(s)] == '.',
        forall|j: int| last_dot(s) < j < s.len() ==> #[trigger] s[j] != '.',
    decreases s.len(),
{
    if s.len() > 0 && s.last() != '.' {
        lemma_last_dot_bounds(s.drop_last());
        assert forall|j: int| last_dot(s) < j < s.len() implies #[trigger] s[j] != '.' by {
            if j < s.len() - 1 {
                assert(s[j] == s.drop_last()[j]);
            }
        }
    }
}

proof fn lemma_last_dot_unique(s: Seq<char>, d: int)
    requires
        -1 <= d < s.len(),
        d >= 0 ==> s[d] == '.',
        forall|j: int| d < j < s.len() ==> #[trigger] s[j] != '.',
    ensures
        last_dot(s) == d,
{
    lemma_last_dot_bounds(s);
    if last_dot(s) < d {
        assert(s[d] != '.');
    }
    if last_dot(s) > d {
        assert(s[last_dot(s)] != '.');
    }
}

proof fn lemma_segment_has_no_dot(s: Seq<char>)
    requires
        is_valid_segment(s),
    ensures
        forall|j: int| 0 <= j < s.len() ==> #[trigger] s[j] != '.',
{
    assert forall|j: int| 0 <= j < s.len() implies #[trigger] s[j] != '.' by {
        assert(is_segment_char(s[j]));
    }
}

/// A valid package identity followed by `.nspkg` classifies as exactly that
/// complete package.
pub proof fn law_classify_package_file_name(puid: Seq<char>)
    requires
        is_valid_segment(puid),
    ensures
        spec_classify(puid + nspkg_extension()) == Ok::<ClassifiedView, ClassifyFault>(
            ClassifiedView::Package(puid),
        ),
{
    let f = puid + nspkg_extension();
    assert(f.subrange(f.len() - 6, f.len() as int) =~= nspkg_extension());
    assert(f.subrange(0, f.len() - 6) =~= puid);
    lemma_segment_has_no_dot(puid);
    lemma_last_dot_unique(puid, -1);
    lemma_validate_ok(puid);
}

/// A valid asset PUID and category joined by `.` and followed by `.nspkg`
/// classify as exactly that asset: the category is recovered from the last
/// dot because neither segment may contain one.
pub proof fn law_classify_asset_file_name(puid: Seq<char>, category: Seq<char>)
    requires
        is_valid_segment(puid),
        is_valid_segment(category),
    ensures
        spec_classify(puid + seq!['.'] + category + nspkg_extension()) == Ok::<
            ClassifiedView,
            ClassifyFault,
        >(ClassifiedView::Asset(puid, category)),
{
    let stem = puid + seq!['.'] + category;
    let f = stem + nspkg_extension();
    assert(f.subrange(f.len() - 6, f.len() as int) =~= nspkg_extension());
    assert(f.subrange(0, f.len() - 6) =~= stem);
    lemma_segment_has_no_dot(category);
    let d = puid.len() as int;
    assert(stem[d] == '.');
    assert forall|j: int| d < j < stem.len() implies #[trigger] stem[j] != '.' by {
        assert(stem[j] == category[j - d - 1]);
    }
    lemma_last_dot_unique(stem, d);
    assert(stem.subrange(0, d) =~= puid);
    assert(stem.subrange(d + 1, stem.len() as int) =~= category);
    lemma_validate_ok(puid);
    lemma_validate_ok(category);
}

/// Classification loses nothing: a filename that classifies successfully is
/// exactly the filename its classification describes.
pub proof fn law_classified_file_name_round_trips(f: Seq<char>)
    requires
        spec_classify(f) is Ok,
    ensures
        spec_file_name(spec_classify(f)->Ok_0) == f,
{
    let stem = f.subrange(0, f.len() - 6);
    let d = last_dot(stem);
    lemma_last_dot_bounds(stem);
    if d < 0 {
        assert(stem + nspkg_extension() =~= f);
    } else {
        let puid = stem.subrange(0, d);
        let category = stem.subrange(d + 1, stem.len() as int);
        assert(puid + seq!['.'] + category =~= stem);
        assert(puid + seq!['.'] + category + nspkg_extension() =~= f);
    }
}

/// `std::path::Path`, carried through opaquely.
#[verifier::external_type_specification]
#[verifier::external_body]
pub struct ExPath(std::path::Path);

/// Calls `Path::file_name` and then `OsStr::to_str` on it: the final
/// component of `path` as text, when there is one and it is valid Unicode.
/// The two calls share one item because the intermediate `OsStr` cannot be
/// named here. How a path splits into components depends on the platform,
/// so nothing is stated about the result.
#[verifier::external_body]
fn path_file_name_text(path: &std::path::Path) -> Option<&str> {
    path.file_name().and_then(|n| n.to_str())
}

impl ClassifiedFilename {
    /// Classifies a bare filename (not a full path) using only its text. No
    /// file I/O; the name need not correspond to an existing file.
    pub fn classify(filename: &str) -> (res: Result<Self, ClassifyError>)
        ensures
            classify_result_view(res) == spec_classify(filename@),
    {
        let chars = chars_of(filename);
        let n = chars.len();
        let ghost f = filename@;
        if n < 6 || chars[n - 6] != '.' || chars[n - 5] != 'n' || chars[n - 4] != 's'
            || chars[n - 3] != 'p' || chars[n - 2] != 'k' || chars[n - 1] != 'g' {
            proof {
                if has_nspkg_extension(f) {
                    let t = f.subrange(f.len() - 6, f.len() as int);
                    assert(t[0] == '.' && t[1] == 'n' && t[2] == 's' && t[3] == 'p' && t[4] == 'k'
                        && t[5] == 'g');
                }
            }
            return Err(ClassifyError::MissingExtension);
        }
        assert(f.subrange(f.len() - 6, f.len() as int) =~= nspkg_extension());
        let stem_len = n - 6;
        let ghost stem = f.subrange(0, stem_len as int);
        let mut k = stem_len;
        while k > 0 && chars[k - 1] != '.'
            invariant
                k <= stem_len,
                stem_len + 6 == n,
                n == chars@.len(),
                chars@ == f,
                stem == f.subrange(0, stem_len as int),
                forall|j: int| k <= j < stem_len ==> #[trigger] stem[j] != '.',
            decreases k,
        {
            assert(stem[k - 1] == chars@[k - 1]);
            k = k - 1;
        }
        assert(k > 0 ==> stem[k - 1] == '.');
        proof {
            lemma_last_dot_unique(stem, k - 1);
            lemma_validate_ok(stem);
            if k > 0 {
                lemma_validate_ok(stem.subrange(0, k - 1));
                lemma_validate_ok(stem.subrange(k as int, stem.len() as int));
            }
        }
        if k == 0 {
            let stem_str = filename.substring_char(0, stem_len);
            assert(stem_str@ =~= stem);
            let r = match PackageId::new(stem_str) {
                Ok(puid) => Ok(ClassifiedFilename::Package { puid }),
                Err(e) => Err(ClassifyError::InvalidPackagePuid(e)),
            };
            r
        } else {
            let puid_str = filename.substring_char(0, k - 1);
            let category_str = filename.substring_char(k, stem_len);
            assert(puid_str@ =~= stem.subrange(0, k - 1));
            assert(category_str@ =~= stem.subrange(k as int, stem.len() as int));
            let puid = match AssetPuid::new(puid_str) {
                Ok(p) => p,
                Err(e) => {
                    return Err(ClassifyError::InvalidAssetPuid(e));
                },
            };
            match AssetCategory::new(category_str) {
                Ok(category) => Ok(ClassifiedFilename::Asset { puid, category }),
                Err(e) => Err(ClassifyError::InvalidCategory(e)),
            }
        }
    }

    /// Classifies an optional filename: `None` (no UTF-8 filename
    /// component) is `NotUtf8Filename`, otherwise the name is classified.
    pub fn classify_file_name(name: Option<&str>) -> (res: Result<Self, ClassifyError>)
        ensures
            name is None ==> res == Err::<Self, ClassifyError>(ClassifyError::NotUtf8Filename),
            name matches Some(n) ==> classify_result_view(res) == spec_classify(n@),
    {
        match name {
            None => Err(ClassifyError::NotUtf8Filename),
            Some(n) => Self::classify(n),
        }
    }

    /// Classifies the filename component of `path`. Still no file I/O:
    /// `path` never needs to exist. Either the path has no UTF-8 filename
    /// component, or the result is the classification of some filename.
    pub fn classify_path(path: &std::path::Path) -> (res: Result<Self, ClassifyError>)
        ensures
            res == Err::<Self, ClassifyError>(ClassifyError::NotUtf8Filename) || exists|
                name: Seq<char>,
            | classify_result_view(res) == spec_classify(name),
    {
        Self::classify_file_name(path_file_name_text(path))
    }

    /// True if this is a complete content package rather than an individual
    /// asset.
    pub fn is_package(&self) -> (b: bool)
        ensures
            b <==> self@ is Package,
    {
        match self {
            ClassifiedFilename::Package { .. } => true,
            ClassifiedFilename::Asset { .. } => false,
        }
    }
}

} // verus!
