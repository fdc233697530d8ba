//! Deterministic sweeps over many generated inputs around the documented
//! examples: filename classification, asset-key identity and container
//! round trips.

use northstar::category::AssetCategory;
use northstar::chunk::{ChunkDescriptor, ChunkId};
use northstar::container::{ContainerReader, ContainerWriter};
use northstar::filename::ClassifiedFilename;
use northstar::key::AssetKey;
use northstar::package_id::PackageId;
use northstar::puid::AssetPuid;

/// A small linear congruential generator: the same sequence every run.
struct Lcg(u64);

impl Lcg {
    fn next(&mut self) -> u64 {
        self.0 = self
            .0
            .wrapping_mul(6364136223846793005)
            .wrapping_add(1442695040888963407);
        self.0 >> 33
    }

    fn below(&mut self, n: u64) -> u64 {
        self.next() % n
    }

    /// A non-empty segment of letters, digits, `_` and `-`, up to 24 long.
    fn segment(&mut self) -> String {
        const CHARS: &[u8] = b"abcdefghijklmnopqrstuvwxyzABCDEFGHIJKLMNOPQRSTUVWXYZ0123456789_-";
        let len = 1 + self.below(24) as usize;
        (0..len)
            .map(|_| CHARS[self.below(CHARS.len() as u64) as usize] as char)
            .collect()
    }

    fn bytes(&mut self, max: u64) -> Vec<u8> {
        let len = self.below(max) as usize;
        (0..len).map(|_| self.below(256) as u8).collect()
    }
}

#[test]
fn any_valid_asset_filename_round_trips() {
    let mut rng = Lcg(1);
    for _ in 0..500 {
        let puid = rng.segment();
        let category = rng.segment();
        let filename = format!("{puid}.{category}.nspkg");
        assert_eq!(
            ClassifiedFilename::classify(&filename).unwrap(),
            ClassifiedFilename::Asset {
                puid: AssetPuid::new(&puid).unwrap(),
                category: AssetCategory::new(&category).unwrap(),
            }
        );
    }
}

#[test]
fn any_valid_package_filename_round_trips() {
    let mut rng = Lcg(2);
    for _ in 0..500 {
        let puid = rng.segment();
        assert_eq!(
            ClassifiedFilename::classify(&format!("{puid}.nspkg")).unwrap(),
            ClassifiedFilename::Package {
                puid: PackageId::new(&puid).unwrap()
            }
        );
    }
}

#[test]
fn identical_puid_in_different_packages_is_never_the_same_key() {
    let mut rng = Lcg(3);
    for _ in 0..500 {
        let puid = rng.segment();
        let a = rng.segment();
        let b = rng.segment();
        if a == b {
            continue;
        }
        let key_a = AssetKey::new(PackageId::new(&a).unwrap(), AssetPuid::new(&puid).unwrap());
        let key_b = AssetKey::new(PackageId::new(&b).unwrap(), AssetPuid::new(&puid).unwrap());
        assert_ne!(key_a, key_b);
    }
}

#[test]
fn container_round_trips_arbitrary_metadata_and_chunks() {
    let mut rng = Lcg(4);
    for _ in 0..200 {
        let metadata = rng.bytes(256);
        let count = rng.below(8);
        let mut chunks: Vec<(u32, Vec<u8>)> = Vec::new();
        for _ in 0..count {
            let id = rng.next() as u32;
            if chunks.iter().all(|(seen, _)| *seen != id) {
                chunks.push((id, rng.bytes(256)));
            }
        }

        let identity = ClassifiedFilename::Package {
            puid: PackageId::new("sweep_pkg").unwrap(),
        };
        let mut writer = ContainerWriter::new(identity.clone()).with_metadata(metadata.clone());
        for (id, bytes) in &chunks {
            writer
                .push_chunk(ChunkDescriptor::new(ChunkId(*id), "blob"), bytes.clone())
                .unwrap();
        }

        let encoded = writer.encode();
        let reader = ContainerReader::parse(&encoded).unwrap();
        assert_eq!(reader.self_identity(), &identity);
        assert_eq!(reader.metadata(), metadata.as_slice());
        for (id, bytes) in &chunks {
            assert_eq!(reader.chunk_bytes(ChunkId(*id)).unwrap(), bytes.as_slice());
        }
    }
}

#[test]
fn classification_and_parsing_never_panic_on_arbitrary_input() {
    let mut rng = Lcg(5);
    for _ in 0..2000 {
        let bytes = rng.bytes(96);
        let _ = ContainerReader::parse(&bytes);
        let text = String::from_utf8_lossy(&bytes).into_owned();
        let _ = ClassifiedFilename::classify(&text);
    }
}
