//! Secure path resolution and range-aware file streaming for a media server.
//!
//! The crate maps untrusted URL paths to filesystem locations inside a
//! sandboxed media root ([`resolve`]), caches path classifications behind a
//! reader/writer lock scoped so that no lock is ever held across a
//! filesystem query ([`cache`]), classifies media files by extension
//! ([`media`]), and plans full or byte-range HTTP responses for seekable
//! playback ([`stream`]). All filesystem and network work stays with the
//! caller, who hands the library plain values and executes its plans.

pub mod cache;
pub mod media;
pub mod resolve;
pub mod stream;
pub mod text;
