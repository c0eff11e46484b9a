//! Deterministic encoding of decoded video into content-addressed tile
//! payloads, a diagnostic sidecar document and a manifest document.
//!
//! Every function here is a pure transformation of plain values: running a
//! decoder, reading files and writing the container are left to the caller.

pub mod digest;
pub mod doc;
pub mod frames;
pub mod manifest;
pub mod meta;
pub mod pipeline;
pub mod probe;
pub mod sidecar;
pub mod text;
pub mod tile;
pub mod timing;
