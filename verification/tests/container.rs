use northstar::category::AssetCategory;
use northstar::chunk::{ChunkCompression, ChunkDescriptor, ChunkId};
use northstar::container::{
    encoded_identity_len, encoded_str_len, encoded_str_len_for_bytes, ContainerError,
    ContainerReader, ContainerWriter,
};
use northstar::filename::ClassifiedFilename;
use northstar::package_id::PackageId;
use northstar::puid::AssetPuid;
use northstar::version::FormatVersion;
use northstar::wire::fnv1a64;

fn map_identity() -> ClassifiedFilename {
    ClassifiedFilename::Asset {
        puid: AssetPuid::new("pebble_sea_islands").unwrap(),
        category: AssetCategory::new("map").unwrap(),
    }
}

const MAGIC: &[u8; 8] = b"NSPKGCTR";

#[test]
fn round_trips_multiple_arbitrary_chunks_exactly() {
    let mut w = ContainerWriter::new(map_identity()).with_metadata(b"hello metadata".to_vec());
    w.push_chunk(
        ChunkDescriptor::new(ChunkId(0), "header"),
        b"first chunk".to_vec(),
    )
    .unwrap();
    w.push_chunk(
        ChunkDescriptor::new(ChunkId(1), "geometry"),
        Vec::<u8>::new(),
    )
    .unwrap();
    w.push_chunk(
        ChunkDescriptor::new(ChunkId(7), "texture"),
        vec![0xffu8; 4096],
    )
    .unwrap();

    let bytes = w.encode();
    let r = ContainerReader::parse(&bytes).unwrap();

    assert_eq!(r.format_version(), FormatVersion::experimental_v0());
    assert_eq!(r.self_identity(), &map_identity());
    assert_eq!(r.metadata(), b"hello metadata");
    assert_eq!(r.chunk_bytes(ChunkId(0)).unwrap(), b"first chunk");
    assert_eq!(r.chunk_bytes(ChunkId(1)).unwrap(), b"");
    assert_eq!(
        r.chunk_bytes(ChunkId(7)).unwrap(),
        vec![0xffu8; 4096].as_slice()
    );
    assert_eq!(r.chunk_descriptors().iter().count(), 3);
}

#[test]
fn writer_rejects_duplicate_chunk_ids() {
    let mut w = ContainerWriter::new(map_identity());
    w.push_chunk(ChunkDescriptor::new(ChunkId(0), "a"), b"x".to_vec())
        .unwrap();
    let err = w
        .push_chunk(ChunkDescriptor::new(ChunkId(0), "b"), b"y".to_vec())
        .unwrap_err();
    assert_eq!(err, ContainerError::DuplicateChunkId(ChunkId(0)));
}

#[test]
fn reader_rejects_unknown_chunk_id() {
    let w = ContainerWriter::new(map_identity());
    let bytes = w.encode();
    let r = ContainerReader::parse(&bytes).unwrap();
    assert_eq!(
        r.chunk_bytes(ChunkId(99)),
        Err(ContainerError::UnknownChunkId(ChunkId(99)))
    );
}

#[test]
fn truncated_header_does_not_panic() {
    for len in 0..8 {
        assert_eq!(
            ContainerReader::parse(&MAGIC[..len]).unwrap_err(),
            ContainerError::Truncated
        );
    }
}

#[test]
fn bad_magic_is_rejected() {
    let bytes = b"NOTNSPKG_garbage_after".to_vec();
    assert_eq!(
        ContainerReader::parse(&bytes).unwrap_err(),
        ContainerError::BadMagic
    );
}

#[test]
fn unsupported_future_version_is_rejected() {
    let mut w = ContainerWriter::new(map_identity()).encode();
    w[8] = 7;
    w[9] = 0;
    assert_eq!(
        ContainerReader::parse(&w).unwrap_err(),
        ContainerError::UnsupportedVersion(7)
    );
}

#[test]
fn impossible_chunk_offset_is_rejected_without_panicking() {
    let mut w = ContainerWriter::new(map_identity());
    w.push_chunk(ChunkDescriptor::new(ChunkId(0), "a"), b"data".to_vec())
        .unwrap();
    let mut bytes = w.encode();
    let identity_len = encoded_identity_len(&map_identity());
    let metadata_len = encoded_str_len_for_bytes(&[]);
    let header_prefix = 8 + 2 + identity_len + metadata_len + 4;
    let kind_len = encoded_str_len("a");
    let offset_field_pos = header_prefix + 4 + kind_len + 1;
    bytes[offset_field_pos..offset_field_pos + 8].copy_from_slice(&u64::MAX.to_le_bytes());
    assert_eq!(
        ContainerReader::parse(&bytes).unwrap_err(),
        ContainerError::Truncated
    );
}

#[test]
fn corrupted_chunk_bytes_fail_integrity_check() {
    let mut w = ContainerWriter::new(map_identity());
    w.push_chunk(ChunkDescriptor::new(ChunkId(0), "a"), b"data".to_vec())
        .unwrap();
    let mut bytes = w.encode();
    let last = bytes.len() - 1;
    bytes[last] ^= 0xff;
    assert_eq!(
        ContainerReader::parse(&bytes).unwrap_err(),
        ContainerError::ChunkIntegrityMismatch(ChunkId(0))
    );
}

#[test]
fn unsupported_compression_tag_is_rejected() {
    let mut w = ContainerWriter::new(map_identity());
    w.push_chunk(ChunkDescriptor::new(ChunkId(0), "a"), b"data".to_vec())
        .unwrap();
    let mut bytes = w.encode();
    let identity_len = encoded_identity_len(&map_identity());
    let metadata_len = encoded_str_len_for_bytes(&[]);
    let header_prefix = 8 + 2 + identity_len + metadata_len + 4;
    let kind_len = encoded_str_len("a");
    let compression_field_pos = header_prefix + 4 + kind_len;
    bytes[compression_field_pos] = 99;
    assert_eq!(
        ContainerReader::parse(&bytes).unwrap_err(),
        ContainerError::UnsupportedCompression(99)
    );
}

#[test]
fn package_identity_round_trips() {
    let identity = ClassifiedFilename::Package {
        puid: PackageId::new("basegame").unwrap(),
    };
    let bytes = ContainerWriter::new(identity.clone()).encode();
    let r = ContainerReader::parse(&bytes).unwrap();
    assert_eq!(r.self_identity(), &identity);
}

// ---------------------------------------------------------------------

fn single_chunk_container() -> Vec<u8> {
    let mut w = ContainerWriter::new(map_identity()).with_metadata(b"m".to_vec());
    w.push_chunk(ChunkDescriptor::new(ChunkId(3), "blob"), b"payload".to_vec())
        .unwrap();
    w.encode()
}

#[test]
fn encoding_has_the_documented_layout() {
    let w = ContainerWriter::new(ClassifiedFilename::Package {
        puid: PackageId::new("p").unwrap(),
    })
    .with_metadata(vec![9u8]);
    let bytes = w.encode();
    let mut expected = Vec::new();
    expected.extend_from_slice(b"NSPKGCTR");
    expected.extend_from_slice(&[0, 0]);
    expected.extend_from_slice(&[0, 1, 0, 0, 0, b'p']);
    expected.extend_from_slice(&[1, 0, 0, 0, 9]);
    expected.extend_from_slice(&[0, 0, 0, 0]);
    assert_eq!(bytes, expected);
}

#[test]
fn chunk_index_records_offset_size_and_checksum() {
    let bytes = single_chunk_container();
    let r = ContainerReader::parse(&bytes).unwrap();
    let d = &r.chunk_descriptors()[0];
    assert_eq!(d.id, ChunkId(3));
    assert_eq!(d.kind, "blob");
    assert_eq!(d.compression, ChunkCompression::Uncompressed);
    // The payload is the last thing in the buffer.
    assert_eq!(&bytes[bytes.len() - 7..], b"payload");
    let checksum = fnv1a64(b"payload");
    assert_eq!(&bytes[bytes.len() - 15..bytes.len() - 7], &checksum.to_le_bytes());
}

#[test]
fn fnv1a64_known_values() {
    assert_eq!(fnv1a64(b""), 0xcbf2_9ce4_8422_2325);
    assert_eq!(fnv1a64(b"a"), 0xaf63_dc4c_8601_ec8c);
    assert_eq!(fnv1a64(b"foobar"), 0x8594_4171_f739_67e8);
}

#[test]
fn every_truncation_of_a_valid_container_is_rejected() {
    let bytes = single_chunk_container();
    for len in 0..bytes.len() {
        let err = ContainerReader::parse(&bytes[..len]).unwrap_err();
        assert!(
            matches!(err, ContainerError::Truncated),
            "prefix of length {len}: {err:?}"
        );
    }
    assert!(ContainerReader::parse(&bytes).is_ok());
}

#[test]
fn invalid_utf8_kind_is_rejected() {
    let mut bytes = single_chunk_container();
    let identity_len = encoded_identity_len(&map_identity());
    let header_prefix = 8 + 2 + identity_len + 5 + 4;
    // id (4) + kind length (4), then the first kind byte.
    bytes[header_prefix + 8] = 0xff;
    assert_eq!(
        ContainerReader::parse(&bytes).unwrap_err(),
        ContainerError::InvalidUtf8
    );
}

#[test]
fn invalid_identities_are_rejected_with_their_reason() {
    let mut bytes = ContainerWriter::new(map_identity()).encode();
    // identity tag sits right after magic and version
    bytes[10] = 5;
    assert_eq!(
        ContainerReader::parse(&bytes).unwrap_err(),
        ContainerError::InvalidIdentity("unknown identity tag 5".to_string())
    );
    let mut bytes = ContainerWriter::new(map_identity()).encode();
    // first character of the puid: "pebble..." -> ".ebble..."
    bytes[15] = b'.';
    assert_eq!(
        ContainerReader::parse(&bytes).unwrap_err(),
        ContainerError::InvalidIdentity(
            "invalid asset puid: contains invalid character '.' (only ASCII letters, digits, '_' and '-' are allowed)".to_string()
        )
    );
}

#[test]
fn duplicate_ids_in_an_index_are_rejected() {
    let mut w = ContainerWriter::new(map_identity());
    w.push_chunk(ChunkDescriptor::new(ChunkId(1), "a"), b"x".to_vec())
        .unwrap();
    w.push_chunk(ChunkDescriptor::new(ChunkId(2), "a"), b"y".to_vec())
        .unwrap();
    let mut bytes = w.encode();
    let identity_len = encoded_identity_len(&map_identity());
    let header_prefix = 8 + 2 + identity_len + 4 + 4;
    let entry_len = 4 + 5 + 1 + 24;
    // overwrite the second entry's id with the first one's
    bytes[header_prefix + entry_len] = 1;
    assert_eq!(
        ContainerReader::parse(&bytes).unwrap_err(),
        ContainerError::DuplicateChunkId(ChunkId(1))
    );
}

#[test]
fn writer_keeps_chunks_after_a_rejected_push() {
    let mut w = ContainerWriter::new(map_identity());
    w.push_chunk(ChunkDescriptor::new(ChunkId(0), "a"), b"x".to_vec())
        .unwrap();
    assert!(w
        .push_chunk(ChunkDescriptor::new(ChunkId(0), "b"), b"y".to_vec())
        .is_err());
    let bytes = w.encode();
    let r = ContainerReader::parse(&bytes).unwrap();
    assert_eq!(r.chunk_descriptors().len(), 1);
    assert_eq!(r.chunk_bytes(ChunkId(0)).unwrap(), b"x");
}

#[test]
fn container_error_messages() {
    assert_eq!(
        ContainerError::Truncated.message(),
        "container data is truncated or an offset/size runs past the end of the buffer"
    );
    assert_eq!(
        ContainerError::UnsupportedVersion(7).message(),
        "unsupported container format version 7"
    );
    assert_eq!(
        ContainerError::DuplicateChunkId(ChunkId(4)).message(),
        "duplicate chunk id ChunkId(4)"
    );
    assert_eq!(
        ContainerError::ChunkIntegrityMismatch(ChunkId(0)).message(),
        "chunk ChunkId(0) failed its integrity check"
    );
    assert_eq!(
        ContainerError::UnsupportedCompression(99).message(),
        "unsupported chunk compression tag 99"
    );
    assert_eq!(FormatVersion(3).to_string(), "v3");
}
