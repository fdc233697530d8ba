use std::path::{Path, PathBuf};

use northstar::catalog::{
    asset_path_string, package_id_from_component, package_id_from_first_component,
    package_id_from_path, PackageCatalog,
    PackagePathError, SOURCE_NAME,
};
use northstar::category::AssetCategory;
use northstar::container::{ContainerError, ContainerReader, ContainerWriter};
use northstar::filename::{ClassifiedFilename, ClassifyError};
use northstar::ident::IdentError;
use northstar::key::AssetKey;
use northstar::load::{
    asset_file_name, asset_reference_path, check_container, check_file_name,
    local_reference_path, reference_path, NorthstarReferenceError, NspkgLoadError,
};
use northstar::package_id::PackageId;
use northstar::puid::AssetPuid;
use northstar::registry::{CategoryRegistry, RegistrationConflict};
use northstar::testing::{
    TestLeafDecodeError, TestLeafDecoder, TestParentDecodeError, TestParentDecoder,
    TestParentFields,
};

fn category(name: &str) -> AssetCategory {
    AssetCategory::new(name).unwrap()
}

fn asset_container(puid: &str, category_name: &str, metadata: &[u8]) -> Vec<u8> {
    let identity = ClassifiedFilename::Asset {
        puid: AssetPuid::new(puid).unwrap(),
        category: category(category_name),
    };
    ContainerWriter::new(identity)
        .with_metadata(metadata.to_vec())
        .encode()
}

#[test]
fn unregistered_type_has_no_category() {
    let registry = CategoryRegistry::new();
    assert!(registry.category_for("NeverRegisteredAsset").is_none());
}

#[test]
fn re_registering_the_same_type_and_category_is_idempotent() {
    let mut registry = CategoryRegistry::new();
    registry.register("RepeatRegistrationAsset", AssetCategory::new("repeatable").unwrap());
    // A second app in the same process registering the same type under the
    // same category must not fail.
    assert!(registry
        .conflict("RepeatRegistrationAsset", &AssetCategory::new("repeatable").unwrap())
        .is_none());
    registry.register("RepeatRegistrationAsset", AssetCategory::new("repeatable").unwrap());
    assert_eq!(
        registry.category_for("RepeatRegistrationAsset").unwrap(),
        AssetCategory::new("repeatable").unwrap()
    );
}

#[test]
fn conflicting_registrations_are_detected_before_registering() {
    let mut registry = CategoryRegistry::new();
    registry.register("ConflictAsset", category("first"));
    let err = registry
        .conflict("ConflictAsset", &category("second"))
        .unwrap();
    assert_eq!(
        err,
        RegistrationConflict::TypeAlreadyRegistered {
            asset_type: "ConflictAsset".to_owned(),
            existing: category("first"),
            requested: category("second"),
        }
    );
    assert!(err.message().contains("already registered"));
    assert_eq!(
        err.message(),
        "asset type `ConflictAsset` is already registered under nspkg category `first`, cannot also register it under `second`"
    );

    let err = registry.conflict("OtherAsset", &category("first")).unwrap();
    assert_eq!(
        err.message(),
        "nspkg category `first` is already registered to asset type `ConflictAsset`, cannot also register it to `OtherAsset` \u{2014} a category maps to exactly one runtime asset type"
    );
    assert!(registry.conflict("OtherAsset", &category("second")).is_none());
    registry.register("OtherAsset", category("second"));
    assert_eq!(registry.category_for("ConflictAsset"), Some(category("first")));
    assert_eq!(registry.category_for("OtherAsset"), Some(category("second")));
}

/// Registers as the engine does: a conflicting registration is a
/// configuration bug and panics with its description.
fn register_or_panic(registry: &mut CategoryRegistry, asset_type: &str, category: AssetCategory) {
    if let Some(conflict) = registry.conflict(asset_type, &category) {
        panic!("{}", conflict.message());
    }
    registry.register(asset_type, category);
}

#[test]
#[should_panic(expected = "already registered")]
fn conflicting_category_for_the_same_type_panics() {
    let mut registry = CategoryRegistry::new();
    register_or_panic(&mut registry, "ConflictAsset", category("first"));
    register_or_panic(&mut registry, "ConflictAsset", category("second"));
}

#[test]
fn asset_paths_live_under_the_northstar_source() {
    let basegame = PackageId::new("basegame").unwrap();
    assert_eq!(SOURCE_NAME, "northstar");
    assert_eq!(
        asset_path_string(&basegame, "leaf_one.test_leaf.nspkg"),
        "northstar://basegame/leaf_one.test_leaf.nspkg"
    );
    let key = AssetKey::new(basegame, AssetPuid::new("pebble_sea_islands").unwrap());
    assert_eq!(
        asset_file_name(key.puid(), &category("map")),
        "pebble_sea_islands.map.nspkg"
    );
    assert_eq!(
        asset_reference_path(&key, &category("map")),
        "northstar://basegame/pebble_sea_islands.map.nspkg"
    );
}

#[test]
fn a_reference_path_classifies_back_to_the_referenced_asset() {
    let key = AssetKey::new(
        PackageId::new("some_mod").unwrap(),
        AssetPuid::new("oil_rig_protection").unwrap(),
    );
    let path = asset_reference_path(&key, &category("mission"));
    let file = path.rsplit('/').next().unwrap();
    assert_eq!(
        ClassifiedFilename::classify(file).unwrap(),
        ClassifiedFilename::Asset {
            puid: AssetPuid::new("oil_rig_protection").unwrap(),
            category: category("mission"),
        }
    );
}

#[test]
fn references_need_a_registered_type_and_a_valid_puid() {
    let basegame = PackageId::new("basegame").unwrap();
    let key = AssetKey::new(basegame.clone(), AssetPuid::new("leaf_one").unwrap());
    assert_eq!(
        reference_path(&key, Some(category("test_leaf")), "TestLeafAsset").unwrap(),
        "northstar://basegame/leaf_one.test_leaf.nspkg"
    );
    let err = reference_path(&key, None, "TestLeafAsset").unwrap_err();
    assert_eq!(err, NorthstarReferenceError::UnregisteredType("TestLeafAsset"));
    assert_eq!(
        err.message(),
        "requested type `TestLeafAsset` was never registered via register_nspkg_asset; it cannot be referenced from a decoder"
    );

    assert_eq!(
        local_reference_path(&basegame, "leaf_one", Some(category("test_leaf")), "TestLeafAsset")
            .unwrap(),
        "northstar://basegame/leaf_one.test_leaf.nspkg"
    );
    let err = local_reference_path(&basegame, "a.b", Some(category("test_leaf")), "TestLeafAsset")
        .unwrap_err();
    match err {
        NorthstarReferenceError::InvalidPuid(e) => {
            assert_eq!(e.reason(), IdentError::InvalidChar('.'))
        }
        other => panic!("unexpected {other:?}"),
    }
    assert_eq!(
        err.message(),
        "invalid asset puid: invalid asset puid: contains invalid character '.' (only ASCII letters, digits, '_' and '-' are allowed)"
    );
}

#[test]
fn the_owning_package_is_the_first_path_component() {
    assert_eq!(
        package_id_from_path(Path::new("basegame/leaf_one.test_leaf.nspkg")).unwrap(),
        PackageId::new("basegame").unwrap()
    );
    assert_eq!(
        package_id_from_path(Path::new("")),
        Err(PackagePathError::NoPackageDirectory)
    );
    assert_eq!(
        package_id_from_component("basegame"),
        PackageId::new("basegame").unwrap()
    );
    assert_eq!(
        package_id_from_first_component(None),
        Err(PackagePathError::NoPackageDirectory)
    );
    assert_eq!(
        package_id_from_first_component(Some("basegame")),
        Ok(PackageId::new("basegame").unwrap())
    );
    assert!(matches!(
        package_id_from_first_component(Some("")),
        Err(PackagePathError::InvalidPackageDirectory(_))
    ));
    match package_id_from_path(Path::new("base.game/x.nspkg")) {
        Err(PackagePathError::InvalidPackageDirectory(e)) => {
            assert_eq!(e.reason(), IdentError::InvalidChar('.'))
        }
        other => panic!("unexpected {other:?}"),
    }
}

#[test]
fn a_catalog_keeps_its_root() {
    let catalog = PackageCatalog::loose_directory(PathBuf::from("assets/packages"));
    assert_eq!(catalog.root(), &PathBuf::from("assets/packages"));
    assert_eq!(catalog.clone().root(), catalog.root());
}

#[test]
fn the_loader_checks_the_filename_before_the_bytes() {
    let leaf = category("test_leaf");
    let ok = check_file_name(
        "basegame/leaf_one.test_leaf.nspkg",
        ClassifiedFilename::classify("leaf_one.test_leaf.nspkg"),
        &leaf,
    );
    assert_eq!(ok.unwrap(), AssetPuid::new("leaf_one").unwrap());

    let err = check_file_name(
        "basegame.nspkg",
        ClassifiedFilename::classify("basegame.nspkg"),
        &leaf,
    )
    .unwrap_err();
    assert_eq!(
        err.message(),
        "\"basegame.nspkg\" classifies as a complete package, not an individually loadable asset"
    );

    let err = check_file_name(
        "basegame/leaf_one.unregistered.nspkg",
        ClassifiedFilename::classify("leaf_one.unregistered.nspkg"),
        &leaf,
    )
    .unwrap_err();
    assert_eq!(
        err,
        NspkgLoadError::CategoryMismatch {
            path: "basegame/leaf_one.unregistered.nspkg".to_owned(),
            expected: leaf.clone(),
            found: category("unregistered"),
        }
    );
    assert_eq!(
        err.message(),
        "\"basegame/leaf_one.unregistered.nspkg\" has category \"unregistered\" but this loader is registered for category \"test_leaf\""
    );

    let err = check_file_name("notes.txt", ClassifiedFilename::classify("notes.txt"), &leaf)
        .unwrap_err();
    assert_eq!(
        err,
        NspkgLoadError::Classify {
            path: "notes.txt".to_owned(),
            source: ClassifyError::MissingExtension,
        }
    );
    assert_eq!(
        err.message(),
        "could not classify \"notes.txt\" as an .nspkg asset: filename does not end in \".nspkg\""
    );
}

#[test]
fn the_loader_refuses_malformed_or_mismatched_containers() {
    let leaf = category("test_leaf");
    let leaf_one = AssetPuid::new("leaf_one").unwrap();
    let good = asset_container("leaf_one", "test_leaf", b"hello from leaf");
    let container = check_container("leaf_one.test_leaf.nspkg", &good, &leaf_one, &leaf).unwrap();
    assert_eq!(container.metadata(), b"hello from leaf");

    let err = check_container("x.test_leaf.nspkg", &good[..5], &leaf_one, &leaf).unwrap_err();
    assert_eq!(
        err,
        NspkgLoadError::Container {
            path: "x.test_leaf.nspkg".to_owned(),
            source: ContainerError::Truncated,
        }
    );
    assert_eq!(
        err.message(),
        "malformed .nspkg container at \"x.test_leaf.nspkg\": container data is truncated or an offset/size runs past the end of the buffer"
    );

    let expected = ClassifiedFilename::Asset { puid: leaf_one.clone(), category: leaf.clone() };

    // Another category in the header.
    let parent_bytes = asset_container("leaf_one", "test_parent", b"");
    let err = check_container("leaf_one.test_leaf.nspkg", &parent_bytes, &leaf_one, &leaf)
        .unwrap_err();
    assert_eq!(
        err,
        NspkgLoadError::IdentityMismatch {
            path: "leaf_one.test_leaf.nspkg".to_owned(),
            from_filename: expected.clone(),
            from_container: ClassifiedFilename::Asset {
                puid: leaf_one.clone(),
                category: category("test_parent"),
            },
        }
    );
    assert_eq!(
        err.message(),
        "\"leaf_one.test_leaf.nspkg\" classifies as category \"test_leaf\" but its container header self-identifies as category \"test_parent\" \u{2014} refusing to load a mismatched container"
    );

    // Same category, another puid in the header.
    let other = asset_container("leaf_two", "test_leaf", b"");
    let err = check_container("leaf_one.test_leaf.nspkg", &other, &leaf_one, &leaf).unwrap_err();
    assert!(matches!(err, NspkgLoadError::IdentityMismatch { .. }));
    assert_eq!(
        err.message(),
        "\"leaf_one.test_leaf.nspkg\" classifies as asset (puid = leaf_one, category = test_leaf) but its container header self-identifies as asset (puid = leaf_two, category = test_leaf) \u{2014} refusing to load a mismatched container"
    );

    // A header naming a complete package never matches an asset.
    let package = ContainerWriter::new(ClassifiedFilename::Package {
        puid: PackageId::new("leaf_one").unwrap(),
    })
    .encode();
    let err = check_container("leaf_one.test_leaf.nspkg", &package, &leaf_one, &leaf).unwrap_err();
    assert_eq!(
        err.message(),
        "\"leaf_one.test_leaf.nspkg\" classifies as asset (puid = leaf_one, category = test_leaf) but its container header self-identifies as complete package (puid = leaf_one) \u{2014} refusing to load a mismatched container"
    );
}

#[test]
fn trivial_categories_decode_their_payloads() {
    let basegame = PackageId::new("basegame").unwrap();
    let leaf_bytes = asset_container("leaf_one", "test_leaf", b"hello from leaf");
    let leaf = ContainerReader::parse(&leaf_bytes).unwrap();
    assert_eq!(TestLeafDecoder.decode(&leaf).unwrap().value, "hello from leaf");

    let parent_bytes = asset_container("parent_one", "test_parent", b"a label\nleaf_one");
    let parent = ContainerReader::parse(&parent_bytes).unwrap();
    assert_eq!(
        TestParentDecoder
            .decode(&parent, &basegame, Some(category("test_leaf")), "TestLeafAsset")
            .unwrap(),
        TestParentFields {
            label: "a label".to_owned(),
            leaf_path: "northstar://basegame/leaf_one.test_leaf.nspkg".to_owned(),
        }
    );
    assert_eq!(
        TestParentDecoder.split_metadata(&parent).unwrap(),
        ("a label".to_owned(), "leaf_one".to_owned())
    );
}

#[test]
fn trivial_categories_report_bad_payloads() {
    let basegame = PackageId::new("basegame").unwrap();
    let bad_utf8 = asset_container("leaf_one", "test_leaf", &[0xff, 0xfe]);
    let leaf = ContainerReader::parse(&bad_utf8).unwrap();
    let err = TestLeafDecoder.decode(&leaf).unwrap_err();
    assert_eq!(err, TestLeafDecodeError::InvalidMetadata);
    assert_eq!(err.message(), "test_leaf container is missing valid UTF-8 metadata");

    let no_newline = asset_container("parent_one", "test_parent", b"just a label");
    let parent = ContainerReader::parse(&no_newline).unwrap();
    let err = TestParentDecoder
        .decode(&parent, &basegame, Some(category("test_leaf")), "TestLeafAsset")
        .unwrap_err();
    assert_eq!(err, TestParentDecodeError::InvalidMetadata);
    assert_eq!(err.message(), "test_parent container is missing valid UTF-8 metadata");

    let unregistered = asset_container("parent_one", "test_parent", b"a label\nleaf_one");
    let parent = ContainerReader::parse(&unregistered).unwrap();
    let err = TestParentDecoder
        .decode(&parent, &basegame, None, "TestLeafAsset")
        .unwrap_err();
    assert_eq!(
        err,
        TestParentDecodeError::Reference(NorthstarReferenceError::UnregisteredType(
            "TestLeafAsset"
        ))
    );
    assert_eq!(
        err.message(),
        "test_parent could not reference its leaf: requested type `TestLeafAsset` was never registered via register_nspkg_asset; it cannot be referenced from a decoder"
    );

    let bad_leaf = asset_container("parent_one", "test_parent", b"a label\nleaf.one");
    let parent = ContainerReader::parse(&bad_leaf).unwrap();
    assert!(matches!(
        TestParentDecoder.decode(&parent, &basegame, Some(category("test_leaf")), "TestLeafAsset"),
        Err(TestParentDecodeError::Reference(NorthstarReferenceError::InvalidPuid(_)))
    ));
}

#[test]
fn the_label_ends_at_the_first_newline() {
    let bytes = asset_container("parent_one", "test_parent", b"two\nlines\nleaf");
    let parent = ContainerReader::parse(&bytes).unwrap();
    assert_eq!(
        TestParentDecoder.split_metadata(&parent).unwrap(),
        ("two".to_owned(), "lines\nleaf".to_owned())
    );
}
