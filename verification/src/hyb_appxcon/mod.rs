//! The hybrid approximate agreement: rounds of Abraham et al.'s protocol, a
//! first round that estimates how many rounds to run, and a switch to binary
//! agreement once enough rounds have passed.

pub mod roundvals;
pub mod witness;
