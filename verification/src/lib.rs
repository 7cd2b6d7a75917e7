//! Verified core of the Dota 2 Game State Integration (GSI) tools: reading
//! the draft section of GSI payloads, finding a Dota 2 installation from
//! what the file system reports, reading Steam's `libraryfolders.vdf`, and
//! writing the GSI configuration file.

pub mod discovery;
pub mod draft;
pub mod gsi_config;
pub mod json;
pub mod text;
pub mod vdf;
