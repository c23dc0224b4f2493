//! Verified core of a resumable audio-recording archiver.
//!
//! The library covers the pure heart of the uploader: deriving a stable
//! archive identifier from a session folder name, assembling the metadata
//! header set for each upload request, the per-session manifest that records
//! which files have already been transferred, and the planning logic that
//! decides which files a run still has to upload.  All file-system and
//! network work is left to the surrounding application, which feeds this
//! library plain values.

pub mod config;
pub mod ident;
pub mod manifest;
pub mod metadata;
pub mod session;
pub mod site;
pub mod text;
