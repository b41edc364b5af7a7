//! Keeps the files of a dotfiles tree linked into place.
//!
//! `path` models paths as components and expands `$NAME` (environment
//! variable) and `@name` (destination directory of a registered application)
//! components; `cli` builds the application registry from parsed
//! configuration; `link` resolves link pairs to concrete paths and classifies
//! them from what was observed on the filesystem.
use vstd::prelude::*;

pub mod cli;
pub mod link;
pub mod path;

verus! {

} // verus!
