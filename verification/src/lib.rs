//! Northstar's foundation layer with machine-checked contracts: asset
//! identity, the `.nspkg` filename grammar, the experimental chunked
//! container codec, the asset loader's decisions, the editor view and
//! workspace models, startup phases and plugins as values, and what the
//! developer tools compute.

pub mod ident;
pub mod text;
pub mod package_id;
pub mod puid;
pub mod category;
pub mod key;
pub mod version;
pub mod chunk;
pub mod filename;

pub mod wire;
pub mod container;
pub mod roundtrip;

pub mod catalog;
pub mod registry;
pub mod load;
pub mod testing;

pub mod editor;
pub mod view;
pub mod editor_ui;
pub mod ui_model;

pub mod phase;
pub mod time;
pub mod plugin;
pub mod diagnostics;
pub mod cli;
pub mod launcher;
