//! The fixture set of the container format, built in memory exactly as it is
//! generated: two valid containers, and one valid container corrupted in
//! one documented way per fixture.

use std::path::Path;

use northstar::category::AssetCategory;
use northstar::chunk::{ChunkDescriptor, ChunkId};
use northstar::container::{ContainerError, ContainerReader, ContainerWriter};
use northstar::filename::ClassifiedFilename;
use northstar::package_id::PackageId;
use northstar::puid::AssetPuid;

fn valid_fixtures() -> Vec<(&'static str, Vec<u8>)> {
    // A complete package with no chunks: the simplest valid container.
    let empty_package = ContainerWriter::new(ClassifiedFilename::Package {
        puid: PackageId::new("sample_basegame").unwrap(),
    })
    .with_metadata(b"deterministic fixture, no chunks".to_vec());

    // An asset with two small, deterministic chunks.
    let mut map_asset = ContainerWriter::new(ClassifiedFilename::Asset {
        puid: AssetPuid::new("sample_island").unwrap(),
        category: AssetCategory::new("map").unwrap(),
    })
    .with_metadata(b"deterministic fixture metadata".to_vec());
    map_asset
        .push_chunk(
            ChunkDescriptor::new(ChunkId(0), "greeting"),
            b"hello, nspkg fixture!".to_vec(),
        )
        .unwrap();
    map_asset
        .push_chunk(
            ChunkDescriptor::new(ChunkId(1), "sequence"),
            (0u8..64).collect::<Vec<u8>>(),
        )
        .unwrap();

    vec![
        ("sample_basegame.nspkg", empty_package.encode()),
        ("sample_island.map.nspkg", map_asset.encode()),
    ]
}

fn corrupted_fixtures() -> Vec<(String, Vec<u8>)> {
    let mut base = ContainerWriter::new(ClassifiedFilename::Asset {
        puid: AssetPuid::new("sample_island").unwrap(),
        category: AssetCategory::new("map").unwrap(),
    })
    .with_metadata(b"deterministic fixture metadata".to_vec());
    base.push_chunk(
        ChunkDescriptor::new(ChunkId(0), "greeting"),
        b"hello, nspkg fixture!".to_vec(),
    )
    .unwrap();
    let valid_bytes = base.encode();

    let mut out = Vec::new();
    // Truncated at various points, mid-header and mid-chunk-data included.
    for &len in &[0usize, 4, 8, 10, 40, valid_bytes.len() - 1] {
        out.push((
            format!("truncated_at_{len}.bin"),
            valid_bytes[..len.min(valid_bytes.len())].to_vec(),
        ));
    }

    let mut bad_magic = valid_bytes.clone();
    bad_magic[0..4].copy_from_slice(b"NOPE");
    out.push(("bad_magic.bin".to_owned(), bad_magic));

    // The last byte falls inside the chunk data: its checksum no longer
    // matches.
    let mut bad_checksum = valid_bytes.clone();
    let last = bad_checksum.len() - 1;
    bad_checksum[last] ^= 0xff;
    out.push(("bad_checksum.bin".to_owned(), bad_checksum));

    let mut bad_version = valid_bytes.clone();
    bad_version[8] = 0xff;
    bad_version[9] = 0xff;
    out.push(("unsupported_version.bin".to_owned(), bad_version));
    out
}

fn corrupted(name: &str) -> Vec<u8> {
    corrupted_fixtures()
        .into_iter()
        .find(|(n, _)| n == name)
        .map(|(_, bytes)| bytes)
        .unwrap()
}

#[test]
fn valid_fixtures_parse_and_round_trip() {
    for (name, bytes) in valid_fixtures() {
        let container = ContainerReader::parse(&bytes)
            .unwrap_or_else(|e| panic!("{name}: expected valid, got {}", e.message()));
        // The filename and the container's own identity agree: the same
        // check the loader makes.
        let classified = ClassifiedFilename::classify_path(Path::new(name))
            .unwrap_or_else(|e| panic!("{name}: {}", e.message()));
        assert_eq!(
            &classified,
            container.self_identity(),
            "{name}: filename/container identity mismatch"
        );
    }
}

#[test]
fn corrupted_fixtures_fail_without_panicking() {
    for (name, bytes) in corrupted_fixtures() {
        assert!(
            ContainerReader::parse(&bytes).is_err(),
            "{name}: expected this corrupted fixture to fail parsing"
        );
    }
}

#[test]
fn specific_corruption_fixtures_map_to_the_expected_error() {
    assert!(matches!(
        ContainerReader::parse(&corrupted("bad_magic.bin")),
        Err(ContainerError::BadMagic)
    ));
    assert!(matches!(
        ContainerReader::parse(&corrupted("unsupported_version.bin")),
        Err(ContainerError::UnsupportedVersion(_))
    ));
    assert!(matches!(
        ContainerReader::parse(&corrupted("bad_checksum.bin")),
        Err(ContainerError::ChunkIntegrityMismatch(_))
    ));
    for truncated in ["truncated_at_0.bin", "truncated_at_4.bin", "truncated_at_8.bin"] {
        assert!(matches!(
            ContainerReader::parse(&corrupted(truncated)),
            Err(ContainerError::Truncated)
        ));
    }
}
