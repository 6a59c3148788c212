//! Selecting the files of a directory tree and rendering each one as a
//! labelled, fenced markdown block.

pub mod filter;
pub mod path;
pub mod render;
pub mod run;
pub mod select;
pub mod text;
