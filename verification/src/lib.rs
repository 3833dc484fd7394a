//! A terminal text-editing engine: a line buffer with tab-aware rendering,
//! incremental multi-line syntax highlighting, cursor and viewport tracking,
//! directional incremental search, and a batched frame composer.
//!
//! Terminal input, raw-mode handling and file input/output live outside this
//! crate; the engine works on plain values and is verified end to end.

pub mod text;
pub mod rows;
pub mod highlight;
pub mod cursor;
pub mod content;
pub mod term;
pub mod search;
pub mod output;

use vstd::prelude::*;

verus! {

/// Errors the engine reports to its caller.
#[derive(Clone, Copy, PartialEq, Eq, Structural, Debug)]
pub enum EditorError {
    /// A save was requested while no file path is known.
    NoFileName,
}

} // verus!
