use std::path::PathBuf;

use northstar::catalog::PackageCatalog;
use northstar::category::AssetCategory;
use northstar::chunk::{ChunkDescriptor, ChunkId};
use northstar::cli::{
    chunk_file_name, chunk_row, classification_text, descriptors_by_id, one_arg,
    package_dir_detail, pack_test_writer, status_line, two_args, PACK_TEST_METADATA,
};
use northstar::container::{ContainerReader, ContainerWriter};
use northstar::diagnostics::{BuildInfo, ASSETS, BOOTSTRAP, DEV_TOOLS, EDITOR, SIM};
use northstar::filename::ClassifiedFilename;
use northstar::package_id::PackageId;
use northstar::phase::NorthstarPhase;
use northstar::plugin::{NorthstarAssetPlugin, NorthstarDiagnosticsPlugin, NorthstarPlugin};
use northstar::puid::AssetPuid;
use northstar::time::SimClockMode;
use northstar::version::FormatVersion;
use northstar::launcher::{launch_status, on_press, stopped_status, LaunchTarget, PressDecision};

fn strings(items: &[&str]) -> Vec<String> {
    items.iter().map(|s| s.to_string()).collect()
}

#[test]
fn phases_are_listed_in_their_execution_order() {
    assert_eq!(
        NorthstarPhase::order(),
        [
            NorthstarPhase::Bootstrap,
            NorthstarPhase::MountPackages,
            NorthstarPhase::LoadAssets,
            NorthstarPhase::AppStartup,
        ]
    );
}

#[test]
fn only_running_advances_the_simulation() {
    assert_eq!(SimClockMode::default(), SimClockMode::Running);
    assert!(SimClockMode::Running.advances_virtual_time());
    assert!(!SimClockMode::Paused.advances_virtual_time());
    assert!(!SimClockMode::EditorPreview.advances_virtual_time());
    assert!(SimClockMode::Paused.is_paused());
    assert!(!SimClockMode::EditorPreview.is_paused());
    assert!(!SimClockMode::Running.is_paused());
}

#[test]
fn the_foundation_plugins_share_the_catalog() {
    let root = PathBuf::from("assets/packages");
    let plugin = NorthstarPlugin::new(PackageCatalog::loose_directory(root.clone()));
    let (assets, _time, diagnostics) = plugin.foundation();
    assert_eq!(assets.catalog().root(), &root);
    assert!(diagnostics.frame_time);

    let direct = NorthstarAssetPlugin::new(PackageCatalog::loose_directory(root.clone()));
    assert_eq!(direct.catalog().root(), &root);
}

#[test]
fn frame_time_diagnostics_are_added_once_and_only_when_asked() {
    let default = NorthstarDiagnosticsPlugin::default();
    assert!(default.frame_time);
    assert!(default.adds_frame_time(false));
    assert!(!default.adds_frame_time(true));
    let quiet = NorthstarDiagnosticsPlugin { frame_time: false };
    assert!(!quiet.adds_frame_time(false));
}

#[test]
fn build_info_banner() {
    let clean = BuildInfo::current("0.1.0", "abc123def456", "false", true);
    assert!(!clean.git_dirty);
    assert_eq!(clean.profile, "debug");
    assert_eq!(clean.to_string(), "northstar 0.1.0 (abc123def456, debug)");

    let dirty = BuildInfo::current("0.2.0", "unknown", "true", false);
    assert!(dirty.git_dirty);
    assert_eq!(dirty.profile, "release");
    assert_eq!(dirty.to_string(), "northstar 0.2.0 (unknown-dirty, release)");

    // Only the exact word marks a dirty tree.
    assert!(!BuildInfo::current("0.1.0", "x", "TRUE", true).git_dirty);
    assert!(!BuildInfo::current("0.1.0", "x", "", true).git_dirty);
}

#[test]
fn log_targets_share_one_prefix() {
    for target in [ASSETS, SIM, EDITOR, BOOTSTRAP, DEV_TOOLS] {
        assert!(target.starts_with("northstar::"));
    }
    assert_eq!(BOOTSTRAP, "northstar::bootstrap");
}

#[test]
fn positional_arguments_are_counted_exactly() {
    assert_eq!(one_arg(strings(&["a.nspkg"]), "usage"), Ok("a.nspkg".to_owned()));
    assert_eq!(one_arg(strings(&[]), "usage: classify <path>"), Err("usage: classify <path>".to_owned()));
    assert_eq!(one_arg(strings(&["a", "b"]), "usage"), Err("usage".to_owned()));
    assert_eq!(
        two_args(strings(&["in.nspkg", "out"]), "usage"),
        Ok(("in.nspkg".to_owned(), "out".to_owned()))
    );
    assert_eq!(two_args(strings(&["in.nspkg"]), "usage"), Err("usage".to_owned()));
    assert_eq!(two_args(strings(&["a", "b", "c"]), "usage"), Err("usage".to_owned()));
}

#[test]
fn the_pack_test_fixture_round_trips() {
    let identity = ClassifiedFilename::classify("fixture.test_leaf.nspkg").unwrap();
    let bytes = pack_test_writer(identity.clone()).encode();
    let reader = ContainerReader::parse(&bytes).unwrap();
    assert_eq!(reader.self_identity(), &identity);
    assert_eq!(reader.metadata(), PACK_TEST_METADATA.as_bytes());
    assert_eq!(reader.metadata(), b"northstar-cli pack-test fixture");
    assert_eq!(reader.chunk_bytes(ChunkId(0)).unwrap(), b"hello, nspkg!");
    let numbers: Vec<u8> = (0u8..32).collect();
    assert_eq!(reader.chunk_bytes(ChunkId(1)).unwrap(), numbers.as_slice());
    let kinds: Vec<&str> = reader
        .chunk_descriptors()
        .iter()
        .map(|d| d.kind.as_str())
        .collect();
    assert_eq!(kinds, vec!["greeting", "numbers"]);
}

#[test]
fn inspect_lists_chunks_by_ascending_id() {
    let mut w = ContainerWriter::new(ClassifiedFilename::classify("basegame.nspkg").unwrap());
    for (id, kind) in [(7u32, "texture"), (0, "header"), (3, "geometry")] {
        w.push_chunk(ChunkDescriptor::new(ChunkId(id), kind), vec![1, 2, 3])
            .unwrap();
    }
    let bytes = w.encode();
    let reader = ContainerReader::parse(&bytes).unwrap();
    let sorted = descriptors_by_id(reader.chunk_descriptors());
    let ids: Vec<u32> = sorted.iter().map(|d| d.id.0).collect();
    assert_eq!(ids, vec![0, 3, 7]);
    assert_eq!(sorted[2].kind, "texture");
    assert!(descriptors_by_id(&[]).is_empty());
}

#[test]
fn report_lines() {
    let package = ClassifiedFilename::Package {
        puid: PackageId::new("basegame").unwrap(),
    };
    assert_eq!(classification_text(&package), "complete package (puid = basegame)");
    let asset = ClassifiedFilename::Asset {
        puid: AssetPuid::new("pebble_sea_islands").unwrap(),
        category: AssetCategory::new("map").unwrap(),
    };
    assert_eq!(
        classification_text(&asset),
        "asset (puid = pebble_sea_islands, category = map)"
    );

    let d = ChunkDescriptor::new(ChunkId(7), "texture");
    assert_eq!(
        chunk_row(&d, 4096),
        "    #7    kind=texture          compression=None size=4096"
    );
    assert_eq!(
        chunk_row(&d, 4096),
        format!("    #{:<4} kind={:<16} compression={} size={}", 7, "texture", "None", 4096)
    );
    let long = ChunkDescriptor::new(ChunkId(123456), "a_kind_longer_than_sixteen");
    assert_eq!(
        chunk_row(&long, 0),
        "    #123456 kind=a_kind_longer_than_sixteen compression=None size=0"
    );

    assert_eq!(chunk_file_name(&d), "chunk-0007.texture.bin");
    assert_eq!(chunk_file_name(&long), "chunk-123456.a_kind_longer_than_sixteen.bin");
    assert_eq!(chunk_file_name(&d), format!("chunk-{:04}.{}.bin", 7, "texture"));

    assert_eq!(status_line(true, "rustc", "rustc 1.80"), "[ok]   rustc: rustc 1.80");
    assert_eq!(status_line(false, "clippy", "not installed"), "[warn] clippy: not installed");
    assert_eq!(package_dir_detail("/p", 1), "/p (mounted package dir)");
    assert_eq!(package_dir_detail("/p", 0), "/p (mounted package dirs)");
    assert_eq!(package_dir_detail("/p", 3), "/p (mounted package dirs)");
}

#[test]
fn numbers_are_written_in_decimal() {
    assert_eq!(FormatVersion(0).to_string(), "v0");
    assert_eq!(FormatVersion(10).to_string(), "v10");
    assert_eq!(FormatVersion(65535).to_string(), "v65535");
    let d = ChunkDescriptor::new(ChunkId(u32::MAX), "k");
    assert_eq!(
        chunk_row(&d, u64::MAX),
        format!("    #{:<4} kind={:<16} compression=None size={}", u32::MAX, "k", u64::MAX)
    );
    assert_eq!(chunk_file_name(&d), format!("chunk-{:04}.k.bin", u32::MAX));
}

#[test]
fn the_launcher_launches_each_target_once() {
    assert_eq!(LaunchTarget::Game.binary(), "northstar-game");
    assert_eq!(LaunchTarget::Editor.binary(), "northstar-editor");
    assert_eq!(
        on_press(LaunchTarget::Editor, true),
        PressDecision::AlreadyRunning("Northstar Editor is already running".to_owned())
    );
    assert_eq!(on_press(LaunchTarget::Game, false), PressDecision::Launch);
    assert_eq!(launch_status(LaunchTarget::Game, Ok(())), "Launched Northstar");
    assert_eq!(
        launch_status(LaunchTarget::Editor, Err("not found")),
        "Could not launch Northstar Editor: not found"
    );
    assert_eq!(
        stopped_status(LaunchTarget::Game, Ok("exit status: 0")),
        "Northstar exited with exit status: 0"
    );
    assert_eq!(
        stopped_status(LaunchTarget::Editor, Err("broken pipe")),
        "Lost track of Northstar Editor: broken pipe"
    );
}
