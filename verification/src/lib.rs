//! GenDesk core: the verified logic of a batch image-to-image pipeline
//! (prompt document parsing, task state machine, retry and scheduling
//! decisions, output naming and JPEG header inspection).

pub mod db;
pub mod duration;
pub mod engine;
pub mod error;
pub mod format;
pub mod text;
pub mod importer;
pub mod files;
pub mod ids;
