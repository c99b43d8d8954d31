//! Core logic of a mod manager for a locally installed game: locating the
//! installation, scanning a mods directory, extracting metadata from lenient
//! manifest text, comparing dotted version strings, planning update checks
//! against remote hosts, and sequencing the replacement of a mod package.
//!
//! Everything here is pure decision logic over plain values; the surrounding
//! application performs the file-system walks and network requests and hands
//! their observations in.

use vstd::prelude::*;

pub mod text;
pub mod version;
pub mod manifest;
pub mod scan;
pub mod locate;
pub mod update;
pub mod replace;

verus! {

/// One mod package found in the mods directory.
#[derive(Debug)]
pub struct ModInfo {
    pub name: String,
    pub version: String,
    pub author: String,
    pub description: String,
    pub folder_name: String,
    pub enabled: bool,
    pub update_keys: Vec<String>,
}

/// Result of probing for a game installation.
#[derive(Debug)]
pub struct StardewInfo {
    pub game_path: Option<String>,
    pub mods_path: Option<String>,
    pub found: bool,
}

/// Outcome of one update check for one mod.
#[derive(Debug)]
pub struct UpdateInfo {
    pub current_version: String,
    pub latest_version: String,
    pub update_available: bool,
    pub download_url: Option<String>,
}

/// Persisted application settings.
#[derive(Debug)]
pub struct AppSettings {
    pub nexus_api_key: Option<String>,
}

/// The error taxonomy shared by all components.
#[derive(Clone, Copy, Debug, PartialEq, Eq, Structural)]
pub enum ModError {
    NotFound,
    NotADirectory,
    IoError,
    RemoteError,
    InvalidCredential,
    UnsupportedKeyFormat,
    ParseError,
    DownloadFailed,
    NoCandidatePaths,
}

} // verus!
