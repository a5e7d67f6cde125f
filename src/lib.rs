//! Local persistence layer of a desktop application: user settings (key to
//! value) and a registry of analysis-engine binaries (id to path).

pub mod table;
pub mod db;
pub mod laws;
pub mod json;
