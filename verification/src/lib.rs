//! Reader for compiler coverage instrumentation files and builder of
//! plain-text line-coverage reports.
//!
//! The library decodes the static "notes" file (control-flow graphs of every
//! function, with block-to-line attributions) and the runtime "data" file
//! (execution counts for the instrumented arcs), joins the two, resolves the
//! count of every arc from flow conservation, and renders the per-line and
//! per-function hit counts as a text tracefile.

pub mod cover;
pub mod data;
pub mod errors;
pub mod framing;
pub mod laws;
pub mod le;
pub mod model;
pub mod notes;
pub mod paths;
pub mod report;
pub mod resolve;
pub mod text;

pub use cover::resolve;
pub use data::decode_data;
pub use errors::ParseError;
pub use notes::decode_notes;
pub use report::render;

use vstd::prelude::*;

verus! {

/// Magic number that opens a notes file.
pub const GCNO_MAGIC: u32 = 0x67636e6f;

/// Magic number that opens a data file.
pub const GCDA_MAGIC: u32 = 0x67636461;

/// Record tag: function definition (notes) or function reference (data).
pub const TAG_FUNCTION: u32 = 0x01000000;

/// Record tag: execution counts for the current function (data file).
pub const TAG_COUNTS: u32 = 0x01a10000;

/// Record tag: basic blocks of the current function (notes file).
pub const TAG_BLOCKS: u32 = 0x01410000;

/// Record tag: outgoing arcs of one block (notes file).
pub const TAG_ARCS: u32 = 0x01430000;

/// Record tag: line numbers attributed to one block (notes file).
pub const TAG_LINES: u32 = 0x01450000;

/// Record tag: end of the record stream.
pub const TAG_END_FILE: u32 = 0x00000000;

/// Flag bit marking an arc as part of the spanning tree, which means it
/// carries no explicit counter and its count must be inferred.
pub const ARC_ON_TREE: u32 = 1;

} // verus!
