//! Two intentionally trivial `.nspkg` asset categories, used to prove
//! category dispatch and same-package dependency loading rather than to
//! model real content.

use vstd::prelude::*;
use vstd::string::StrSliceExecFns;
use vstd::utf8::{decode_utf8, valid_utf8};

use crate::category::AssetCategory;
use crate::catalog::spec_asset_path;
use crate::container::ContainerReader;
use crate::ident::is_valid_segment;
use crate::load::{local_reference_path, reference_error_text, spec_asset_file_name, NorthstarReferenceError};
use crate::package_id::PackageId;
use crate::text::{chars_of, join, owned, utf8_text};

verus! {

/// A leaf asset with no dependencies: its whole payload is one UTF-8 string,
/// stored as the container's metadata.
#[derive(Debug, Clone, PartialEq, Eq)]
pub struct TestLeafAsset {
    pub value: String,
}

#[derive(Debug, Clone, Copy, PartialEq, Eq)]
pub enum TestLeafDecodeError {
    /// The container's metadata is not valid UTF-8.
    InvalidMetadata,
}

impl TestLeafDecodeError {
    /// Human-readable description of the failure.
    pub fn message(&self) -> (m: String)
        ensures
            m@ == "test_leaf container is missing valid UTF-8 metadata"@,
    {
        owned("test_leaf container is missing valid UTF-8 metadata")
    }
}

/// Decodes `test_leaf` containers.
pub struct TestLeafDecoder;

impl TestLeafDecoder {
    /// The leaf's value is the container's metadata as text.
    pub fn decode(&self, container: &ContainerReader) -> (res: Result<TestLeafAsset, TestLeafDecodeError>)
        ensures
            valid_utf8(container@.metadata) ==> (res matches Ok(a) && a.value@ == decode_utf8(
                container@.metadata,
            )),
            !valid_utf8(container@.metadata) ==> res == Err::<TestLeafAsset, TestLeafDecodeError>(
                TestLeafDecodeError::InvalidMetadata,
            ),
    {
        match utf8_text(container.metadata()) {
            Some(value) => Ok(TestLeafAsset { value: owned(value) }),
            None => Err(TestLeafDecodeError::InvalidMetadata),
        }
    }
}

#[derive(Debug, Clone, Copy, PartialEq, Eq)]
pub enum TestParentDecodeError {
    /// The metadata is not valid UTF-8 or has no newline.
    InvalidMetadata,
    /// The leaf reference could not be built.
    Reference(NorthstarReferenceError),
}

impl TestParentDecodeError {
    /// Human-readable description of the failure.
    pub fn message(&self) -> (m: String)
        ensures
            m@ == match *self {
                TestParentDecodeError::InvalidMetadata =>
                    "test_parent container is missing valid UTF-8 metadata"@,
                TestParentDecodeError::Reference(e) => "test_parent could not reference its leaf: "@
                    + reference_error_text(e),
            },
    {
        match self {
            TestParentDecodeError::InvalidMetadata => owned(
                "test_parent container is missing valid UTF-8 metadata",
            ),
            TestParentDecodeError::Reference(e) => {
                let inner = e.message();
                join(owned("test_parent could not reference its leaf: "), inner.as_str())
            },
        }
    }
}

/// Index of the first `'\n'` in `s`, or `s.len()` when there is none.
pub open spec fn first_newline(s: Seq<char>) -> int
    decreases s.len(),
{
    if s.len() == 0 {
        0
    } else if s[0] == '\n' {
        0
    } else {
        1 + first_newline(s.drop_first())
    }
}

proof fn lemma_first_newline(s: Seq<char>)
    ensures
        0 <= first_newline(s) <= s.len(),
        first_newline(s) < s.len() ==> s[first_newline(s)] == '\n',
        forall|j: int| 0 <= j < first_newline(s) ==> #[trigger] s[j] != '\n',
    decreases s.len(),
{
    if s.len() > 0 && s[0] != '\n' {
        lemma_first_newline(s.drop_first());
        assert forall|j: int| 0 <= j < first_newline(s) implies #[trigger] s[j] != '\n' by {
            if j > 0 {
                assert(s[j] == s.drop_first()[j - 1]);
            }
        }
    }
}

/// What a parent's metadata (`<label>\n<leaf puid>`) holds: the label and
/// the leaf PUID, split at the first newline.
pub open spec fn spec_parent_fields(metadata: Seq<u8>) -> Option<(Seq<char>, Seq<char>)> {
    if !valid_utf8(metadata) {
        None
    } else {
        let text = decode_utf8(metadata);
        let n = first_newline(text);
        if n < text.len() {
            Some((text.subrange(0, n), text.subrange(n + 1, text.len() as int)))
        } else {
            None
        }
    }
}

/// The label of a parent asset and the logical path of the leaf it
/// references in its own package.
#[derive(Debug, Clone, PartialEq, Eq)]
pub struct TestParentFields {
    pub label: String,
    pub leaf_path: String,
}

/// Decodes `test_parent` containers.
pub struct TestParentDecoder;

impl TestParentDecoder {
    /// Splits the metadata `<label>\n<leaf puid>` at its first newline.
    pub fn split_metadata(&self, container: &ContainerReader) -> (res: Result<
        (String, String),
        TestParentDecodeError,
    >)
        ensures
            match spec_parent_fields(container@.metadata) {
                Some((label, leaf)) => res matches Ok((l, p)) && l@ == label && p@ == leaf,
                None => res == Err::<(String, String), TestParentDecodeError>(
                    TestParentDecodeError::InvalidMetadata,
                ),
            },
    {
        let text = match utf8_text(container.metadata()) {
            Some(t) => t,
            None => {
                return Err(TestParentDecodeError::InvalidMetadata);
            },
        };
        let chars = chars_of(text);
        let n = chars.len();
        let ghost s = text@;
        proof {
            lemma_first_newline(s);
        }
        let mut i: usize = 0;
        while i < n && chars[i] != '\n'
            invariant
                i <= n,
                n == chars@.len(),
                chars@ == s,
                i <= first_newline(s),
                0 <= first_newline(s) <= s.len(),
                first_newline(s) < s.len() ==> s[first_newline(s)] == '\n',
            decreases n - i,
        {
            i = i + 1;
        }
        if i == n {
            return Err(TestParentDecodeError::InvalidMetadata);
        }
        let label = text.substring_char(0, i);
        let leaf = text.substring_char(i + 1, n);
        Ok((owned(label), owned(leaf)))
    }

    /// Decodes a parent: its label, and the path of the leaf it references
    /// in the owning package, for a leaf type registered under
    /// `leaf_category` (`None` when the leaf type is not registered).
    pub fn decode(
        &self,
        container: &ContainerReader,
        owning_package: &PackageId,
        leaf_category: Option<AssetCategory>,
        leaf_type: &'static str,
    ) -> (res: Result<TestParentFields, TestParentDecodeError>)
        ensures
            spec_parent_fields(container@.metadata) is None ==> res == Err::<
                TestParentFields,
                TestParentDecodeError,
            >(TestParentDecodeError::InvalidMetadata),
            spec_parent_fields(container@.metadata) matches Some((label, leaf)) ==> {
                &&& !is_valid_segment(leaf) ==> (res matches Err(
                    TestParentDecodeError::Reference(NorthstarReferenceError::InvalidPuid(_)),
                ))
                &&& is_valid_segment(leaf) && leaf_category is None ==> res == Err::<
                    TestParentFields,
                    TestParentDecodeError,
                >(
                    TestParentDecodeError::Reference(
                        NorthstarReferenceError::UnregisteredType(leaf_type),
                    ),
                )
                &&& is_valid_segment(leaf) ==> (leaf_category matches Some(c) ==> (res matches Ok(f)
                    && f.label@ == label && f.leaf_path@ == spec_asset_path(
                    owning_package@,
                    spec_asset_file_name(leaf, c@),
                )))
            },
    {
        let (label, leaf) = match self.split_metadata(container) {
            Ok(x) => x,
            Err(e) => {
                return Err(e);
            },
        };
        match local_reference_path(owning_package, leaf.as_str(), leaf_category, leaf_type) {
            Ok(leaf_path) => Ok(TestParentFields { label, leaf_path }),
            Err(e) => Err(TestParentDecodeError::Reference(e)),
        }
    }
}

} // verus!
