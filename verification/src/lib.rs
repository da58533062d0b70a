//! Verified core of a point-in-time backup suite: archive planning and
//! naming, SHA-256 content verification, cancellation supervision, and a
//! multi-source restore pipeline that reconciles against live system state.
//!
//! File and process I/O live outside this crate; the modules here hold the
//! decisions and the bookkeeping, each pinned down by a contract.

pub mod appmatch;
pub mod backup;
pub mod cancel;
pub mod codec;
pub mod config;
pub mod manifest;
pub mod paths;
pub mod digest;
pub mod errors;
pub mod restore;
pub mod strutil;
pub mod verify;
pub mod volumes;
