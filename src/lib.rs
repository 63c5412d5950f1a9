//! Selection of the packages offered to a sandboxed compiler, and the
//! manifest and package information derived from that selection.
pub mod laws;
pub mod manifest;
pub mod model;
pub mod names;
pub mod ranking;
pub mod resolve;
pub mod rules;
