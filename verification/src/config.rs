//! The plugin's configuration, as read from `autoenc.toml`.

use vstd::prelude::*;
use crate::path::ScriptPath;

verus! {

/// The whole configuration.
pub struct Config {
    /// Whether the plugin does anything at all.
    pub enabled: bool,
    /// The AES-256 key, which must be 32 bytes long.
    pub key: String,
    /// Where encrypted scripts are written.
    pub encryption_output: ScriptPath,
    /// Where decrypted scripts are written.
    pub decryption_output: ScriptPath,
    /// Whether a `filename = "..."` line is written at the head of saved levels.
    pub inject_level_filename: bool,
    /// Whether scripts are packed in 7z archives before encryption.
    pub compression: Compression,
    /// The cache settings.
    pub cache: Cache,
    /// The log settings.
    pub logging: Logging,
}

/// How scripts are packed before encryption.
#[derive(Clone, Copy, Debug, PartialEq, Eq, Structural, Hash)]
pub enum Compression {
    /// Not packed (`none` in the configuration file).
    NoCompression,
    /// Packed in a single-file 7z archive.
    SevenZip,
}

impl Default for Compression {
    fn default() -> (compression: Self)
        ensures
            compression == Compression::NoCompression,
    {
        Compression::NoCompression
    }
}

/// The cache settings.
pub struct Cache {
    /// Whether handled scripts are remembered.
    pub enabled: bool,
    /// The file the cache is stored in.
    pub cache_file: String,
}

/// The log settings.
pub struct Logging {
    /// Whether a log is written.
    pub enabled: bool,
    /// The file the log is written to.
    pub log_file: String,
    /// The most detailed level logged, by name.
    pub max_level: Option<String>,
}

} // verus!
