//! Aligns the trailing comments of assembly-style source lines at one column.
//!
//! A line is split at the first delimiter that stands outside quotes into a
//! code part and a comment part; the lines of a file are then written out
//! again with every delimiter in the same column.

pub mod accessor;
pub mod aligner;
pub mod arguments;
pub mod filemanager;
pub mod line;
pub mod quotes;
pub mod stability;
pub mod text;
