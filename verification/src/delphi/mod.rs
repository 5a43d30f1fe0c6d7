//! Delphi's binary approximate agreement, one instance per input of the
//! agreement on a common subset.

pub mod level;
