//! Swap blocks: the regions of a text file between an opening and a closing
//! marker line, whose lines are flipped between active and commented out.
//!
//! A file comes in as its lines and goes out as the lines to write; reading
//! and writing files is left to the caller.
//!
//! - [`marker`]: the marker syntax, and what a single line is under it;
//! - [`scanner`]: from the lines of a file to its blocks;
//! - [`transform`]: the toggle, the strip and the report of scanned blocks;
//! - [`stream`]: the rewriter that takes a file line by line;
//! - [`action`]: the operations on one file, and the choice among them;
//! - [`dir`]: the ways of visiting a directory;
//! - [`laws`]: what holds of the operations, whatever the file.

pub mod action;
pub mod args;
pub mod block;
pub mod dir;
pub mod laws;
pub mod marker;
pub mod scanner;
pub mod stream;
pub mod text;
pub mod transform;
pub mod violation;
