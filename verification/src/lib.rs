//! Streaming writer for the FBX scene-interchange format.
//!
//! A document is driven by a push-style event sequence: start the document,
//! open and close named nodes (each carrying an ordered property list), emit
//! comments, end the document.  The emitter never sees the tree as a whole,
//! so structural punctuation (braces, indentation) is decided event by event
//! by a small per-node state stack.

pub mod ascii;
pub mod binary;
pub mod error;
pub mod laws;
pub mod property;
pub mod text;

use vstd::prelude::*;

verus! {

/// The supported FBX major generation: versions in `[7000, 8000)`.
pub open spec fn version_supported(ver: u32) -> bool {
    7000 <= ver < 8000
}

} // verus!
