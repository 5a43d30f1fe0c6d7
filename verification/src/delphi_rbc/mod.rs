//! Delphi's binary approximate agreement over checkpoint intervals, in the
//! variant that ends with a reliable broadcast of the outputs.

pub mod roundvals_bin;
pub mod interval;
pub mod level;
pub mod partition;
pub mod context;
pub mod shape;
pub mod compressed;
pub mod refine;
