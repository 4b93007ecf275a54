//! Verified core of a GMA archiver for the Garry's Mod addon ecosystem.
//!
//! The library models the GMA container byte-for-byte: a verified writer
//! builds archives, a verified parser reads them back, and round-trip,
//! whitelist and memory-budget properties are proved. All file, terminal
//! and thread handling lives outside the library and exchanges plain
//! values (byte vectors, strings, integers) with it.

use vstd::prelude::*;

pub mod codec;
pub mod conf;
pub mod create;
pub mod engine;
pub mod error;
pub mod extract;
pub mod progress;
pub mod util;
pub mod whitelist;

verus! {

/// GMA container version emitted by the writer.
pub const GMA_VERSION: u8 = 3;

/// The four magic bytes `GMAD` that open every GMA container.
pub open spec fn spec_gma_magic() -> Seq<u8> {
    seq![71u8, 77u8, 65u8, 68u8]
}

} // verus!
