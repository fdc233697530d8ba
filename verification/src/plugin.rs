//! Northstar's engine plugins as plain values: what each one installs is
//! decided here; the engine glue that performs the installation lives with
//! the application.

use vstd::prelude::*;

use crate::catalog::PackageCatalog;

verus! {

/// Northstar's asset integration: mounts the `northstar://` source backed
/// by its package catalog.
///
/// Must be installed before the engine's own asset plugin, because sources
/// registered afterwards are invisible to the running asset server.
pub struct NorthstarAssetPlugin {
    catalog: PackageCatalog,
}

impl NorthstarAssetPlugin {
    /// The directory the mounted source reads from.
    pub closed spec fn source_root(&self) -> std::path::PathBuf {
        self.catalog.spec_root()
    }

    pub fn new(catalog: PackageCatalog) -> (p: Self)
        ensures
            p.source_root() == catalog.spec_root(),
    {
        NorthstarAssetPlugin { catalog }
    }

    /// The catalog the `northstar://` source is mounted from.
    pub fn catalog(&self) -> (c: &PackageCatalog)
        ensures
            c.spec_root() == self.source_root(),
    {
        &self.catalog
    }
}

/// Installs the simulation clock and the system that applies it to the
/// engine's virtual time every frame.
#[derive(Debug, Clone, Copy)]
pub struct NorthstarTimePlugin;

/// Northstar's startup diagnostics: one build-info banner, and optionally
/// the engine's own frame-time diagnostics.
#[derive(Debug, Clone, Copy)]
pub struct NorthstarDiagnosticsPlugin {
    /// Add the engine's frame-time (FPS) diagnostics.
    pub frame_time: bool,
}

impl Default for NorthstarDiagnosticsPlugin {
    fn default() -> (p: Self)
        ensures
            p.frame_time,
    {
        NorthstarDiagnosticsPlugin { frame_time: true }
    }
}

impl NorthstarDiagnosticsPlugin {
    /// Whether installing this plugin adds the frame-time diagnostics: only
    /// when asked for, and never a second time.
    pub fn adds_frame_time(&self, already_added: bool) -> (b: bool)
        ensures
            b <==> (self.frame_time && !already_added),
    {
        self.frame_time && !already_added
    }
}

/// Installs Northstar's foundational plugins and the ordered startup phases,
/// nothing else: no rendering, no windowing, no gameplay. Must be installed
/// before the engine's asset plugin, as its asset plugin requires.
pub struct NorthstarPlugin {
    catalog: PackageCatalog,
}

impl NorthstarPlugin {
    /// The directory its asset plugin mounts.
    pub closed spec fn source_root(&self) -> std::path::PathBuf {
        self.catalog.spec_root()
    }

    pub fn new(catalog: PackageCatalog) -> (p: Self)
        ensures
            p.source_root() == catalog.spec_root(),
    {
        NorthstarPlugin { catalog }
    }

    /// The foundational plugins this installs: the asset plugin over (a
    /// copy of) its catalog, the time plugin, and the diagnostics plugin
    /// with its defaults.
    pub fn foundation(&self) -> (plugins: (
        NorthstarAssetPlugin,
        NorthstarTimePlugin,
        NorthstarDiagnosticsPlugin,
    ))
        ensures
            plugins.0.source_root() == self.source_root(),
            plugins.2.frame_time,
    {
        (
            NorthstarAssetPlugin::new(self.catalog.clone()),
            NorthstarTimePlugin,
            NorthstarDiagnosticsPlugin::default(),
        )
    }
}

} // verus!
