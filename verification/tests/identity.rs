use northstar::category::AssetCategory;
use northstar::ident::{validate_segment, IdentError};
use northstar::key::AssetKey;
use northstar::package_id::PackageId;
use northstar::puid::AssetPuid;

#[test]
fn ident_rejects_empty() {
    assert_eq!(validate_segment(""), Err(IdentError::Empty));
}

#[test]
fn rejects_dot() {
    assert_eq!(validate_segment("a.b"), Err(IdentError::InvalidChar('.')));
}

#[test]
fn accepts_alnum_underscore_hyphen() {
    assert!(validate_segment("pebble_sea-islands2").is_ok());
}

#[test]
fn ident_reports_the_first_invalid_character() {
    assert_eq!(validate_segment("ok_so_far/then.dot"), Err(IdentError::InvalidChar('/')));
    assert_eq!(validate_segment("é"), Err(IdentError::InvalidChar('é')));
}

#[test]
fn ident_error_messages() {
    assert_eq!(IdentError::Empty.message(), "must not be empty");
    assert_eq!(
        IdentError::InvalidChar('.').message(),
        "contains invalid character '.' (only ASCII letters, digits, '_' and '-' are allowed)"
    );
    assert_eq!(
        IdentError::InvalidChar('\n').message(),
        "contains invalid character '\\n' (only ASCII letters, digits, '_' and '-' are allowed)"
    );
}

#[test]
fn unknown_category_is_still_valid() {
    assert!(AssetCategory::new("some_future_category").is_ok());
}

#[test]
fn category_rejects_dotted_names() {
    assert!(AssetCategory::new("a.b").is_err());
}

#[test]
fn valid_round_trips_through_display() {
    let id = PackageId::new("basegame").unwrap();
    assert_eq!(id.to_string(), "basegame");
    assert_eq!(id.as_str(), "basegame");
}

#[test]
fn package_id_rejects_dotted_names() {
    assert!(PackageId::new("base.game").is_err());
}

#[test]
fn package_id_rejects_empty() {
    assert!(PackageId::new("").is_err());
}

#[test]
fn distinct_ids_are_not_equal() {
    assert_ne!(PackageId::new("a").unwrap(), PackageId::new("b").unwrap());
}

#[test]
fn package_id_error_message_names_the_cause() {
    let e = PackageId::new("base.game").unwrap_err();
    assert_eq!(e.reason(), IdentError::InvalidChar('.'));
    assert_eq!(
        e.message(),
        "invalid package id: contains invalid character '.' (only ASCII letters, digits, '_' and '-' are allowed)"
    );
    let e = AssetPuid::new("").unwrap_err();
    assert_eq!(e.message(), "invalid asset puid: must not be empty");
    let e = AssetCategory::new("").unwrap_err();
    assert_eq!(e.message(), "invalid asset category: must not be empty");
}

#[test]
fn identities_parse_from_str() {
    let id: PackageId = "basegame".parse().unwrap();
    assert_eq!(id.as_str(), "basegame");
    assert!("a b".parse::<PackageId>().is_err());
}

#[test]
fn the_three_identities_accept_the_same_segments() {
    for s in ["a", "A-b_9", "", "a.b", "a b", "x/y", "ünï"] {
        let p = PackageId::new(s).is_ok();
        assert_eq!(p, AssetPuid::new(s).is_ok());
        assert_eq!(p, AssetCategory::new(s).is_ok());
    }
}

#[test]
fn valid_round_trips() {
    let puid = AssetPuid::new("pebble_sea_islands").unwrap();
    assert_eq!(puid.to_string(), "pebble_sea_islands");
}

#[test]
fn puid_rejects_dotted_names() {
    assert!(AssetPuid::new("a.b").is_err());
}

#[test]
fn same_puid_different_package_are_distinct() {
    let a = AssetKey::new(
        PackageId::new("basegame").unwrap(),
        AssetPuid::new("oil_rig_protection").unwrap(),
    );
    let b = AssetKey::new(
        PackageId::new("some_mod").unwrap(),
        AssetPuid::new("oil_rig_protection").unwrap(),
    );
    assert_ne!(a, b);
}

#[test]
fn same_package_and_puid_are_equal() {
    let a = AssetKey::new(
        PackageId::new("basegame").unwrap(),
        AssetPuid::new("oil_rig_protection").unwrap(),
    );
    let b = AssetKey::new(
        PackageId::new("basegame").unwrap(),
        AssetPuid::new("oil_rig_protection").unwrap(),
    );
    assert_eq!(a, b);
}

#[test]
fn asset_key_accessors_and_text() {
    let k = AssetKey::new(
        PackageId::new("basegame").unwrap(),
        AssetPuid::new("oil_rig_protection").unwrap(),
    );
    assert_eq!(k.package().as_str(), "basegame");
    assert_eq!(k.puid().as_str(), "oil_rig_protection");
    assert_eq!(k.to_string(), "basegame/oil_rig_protection");
    assert_eq!(k.clone(), k);
}
