//! Asynchronous agreement on a common subset of transcripts: a committee of
//! leaders chosen by a common coin proposes sets of `n - f` transcripts, one
//! approximate-agreement instance per leader decides whether its set is
//! taken, and the union of the taken sets is the output.

pub mod select;
pub mod context;
