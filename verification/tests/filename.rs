use std::path::Path;

use northstar::category::AssetCategory;
use northstar::filename::{ClassifiedFilename, ClassifyError};
use northstar::package_id::PackageId;
use northstar::puid::AssetPuid;

#[test]
fn basegame_is_a_complete_package() {
    let c = ClassifiedFilename::classify("basegame.nspkg").unwrap();
    assert!(c.is_package());
    assert_eq!(
        c,
        ClassifiedFilename::Package {
            puid: PackageId::new("basegame").unwrap()
        }
    );
}

#[test]
fn map_asset_classifies_with_puid_and_category() {
    let c = ClassifiedFilename::classify("pebble_sea_islands.map.nspkg").unwrap();
    assert_eq!(
        c,
        ClassifiedFilename::Asset {
            puid: AssetPuid::new("pebble_sea_islands").unwrap(),
            category: AssetCategory::new("map").unwrap(),
        }
    );
}

#[test]
fn mission_asset_classifies_with_puid_and_category() {
    let c = ClassifiedFilename::classify("oil_rig_protection.mission.nspkg").unwrap();
    assert_eq!(
        c,
        ClassifiedFilename::Asset {
            puid: AssetPuid::new("oil_rig_protection").unwrap(),
            category: AssetCategory::new("mission").unwrap(),
        }
    );
}

#[test]
fn prefab_asset_classifies_with_puid_and_category() {
    let c = ClassifiedFilename::classify("garrisoned_oil_rig.prefab.nspkg").unwrap();
    assert_eq!(
        c,
        ClassifiedFilename::Asset {
            puid: AssetPuid::new("garrisoned_oil_rig").unwrap(),
            category: AssetCategory::new("prefab").unwrap(),
        }
    );
}

#[test]
fn unknown_category_still_classifies_as_an_asset() {
    let c = ClassifiedFilename::classify("thing.some_future_category.nspkg").unwrap();
    assert!(!c.is_package());
    assert_eq!(
        c,
        ClassifiedFilename::Asset {
            puid: AssetPuid::new("thing").unwrap(),
            category: AssetCategory::new("some_future_category").unwrap(),
        }
    );
}

#[test]
fn missing_extension_is_an_explicit_error() {
    assert_eq!(
        ClassifiedFilename::classify("basegame.zip"),
        Err(ClassifyError::MissingExtension)
    );
}

#[test]
fn empty_category_is_an_explicit_error() {
    assert!(matches!(
        ClassifiedFilename::classify("foo..nspkg"),
        Err(ClassifyError::InvalidCategory(_))
    ));
}

#[test]
fn empty_asset_puid_is_an_explicit_error() {
    assert!(matches!(
        ClassifiedFilename::classify(".map.nspkg"),
        Err(ClassifyError::InvalidAssetPuid(_))
    ));
}

#[test]
fn bare_extension_is_an_explicit_error() {
    assert!(matches!(
        ClassifiedFilename::classify(".nspkg"),
        Err(ClassifyError::InvalidPackagePuid(_))
    ));
}

#[test]
fn classify_path_uses_only_the_filename_component() {
    let c = ClassifiedFilename::classify_path(Path::new(
        "/mounted/packages/pebble_sea_islands.map.nspkg",
    ))
    .unwrap();
    assert!(!c.is_package());
}

#[test]
fn classify_path_does_not_require_the_file_to_exist() {
    assert!(
        ClassifiedFilename::classify_path(Path::new("/does/not/exist/anywhere/basegame.nspkg"))
            .is_ok()
    );
}

#[test]
fn the_last_dot_separates_puid_from_category() {
    // "a.b.c.nspkg": stem "a.b.c", last dot -> puid "a.b" (invalid).
    assert!(matches!(
        ClassifiedFilename::classify("a.b.c.nspkg"),
        Err(ClassifyError::InvalidAssetPuid(_))
    ));
    assert_eq!(
        ClassifiedFilename::classify("nspkg"),
        Err(ClassifyError::MissingExtension)
    );
    assert_eq!(
        ClassifiedFilename::classify("basegame.NSPKG"),
        Err(ClassifyError::MissingExtension)
    );
}

#[test]
fn classify_errors_carry_the_segment_cause() {
    match ClassifiedFilename::classify("bad name.nspkg") {
        Err(ClassifyError::InvalidPackagePuid(e)) => {
            assert_eq!(e.reason(), northstar::ident::IdentError::InvalidChar(' '))
        }
        other => panic!("unexpected {other:?}"),
    }
    assert_eq!(
        ClassifyError::MissingExtension.message(),
        "filename does not end in \".nspkg\""
    );
    assert_eq!(
        ClassifiedFilename::classify(".nspkg").unwrap_err().message(),
        "malformed .nspkg filename: invalid package id: must not be empty"
    );
}

#[test]
fn classify_file_name_without_a_name_is_not_utf8() {
    assert_eq!(
        ClassifiedFilename::classify_file_name(None),
        Err(ClassifyError::NotUtf8Filename)
    );
    assert!(ClassifiedFilename::classify_file_name(Some("basegame.nspkg"))
        .unwrap()
        .is_package());
}

#[test]
fn classify_path_without_a_file_name_fails() {
    assert_eq!(
        ClassifiedFilename::classify_path(Path::new("/")),
        Err(ClassifyError::NotUtf8Filename)
    );
}
