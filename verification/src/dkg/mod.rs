//! The distributed key generation: the transcripts that dealers produce and
//! the nodes' checks on them.

pub mod trans;
pub mod ladkg;
pub mod node;
