//! Verified protocol logic of the Delphi family of asynchronous agreement
//! protocols: Bracha-style reliable broadcast bookkeeping, Abraham et al.'s
//! witness-based approximate agreement, the binary approximate agreement
//! instances that Delphi runs over checkpoint intervals, the binary agreement
//! rounds of FIN, the agreement-on-a-common-subset decisions used by the
//! distributed key generation, and the configuration checks of a node.
//!
//! Networking, timers and cryptographic primitives stay outside: every
//! protocol handler here is a step function that takes the current state and an
//! incoming event and returns the messages that the node has to send.

pub mod types;
pub mod arith;
pub mod delphi_rbc;
pub mod delphi;
pub mod sorting;
pub mod witness;
pub mod votes;
pub mod appxcon;
pub mod hyb_appxcon;
pub mod fin;
pub mod aacs;
pub mod dkg;
pub mod parse;
pub mod config;
pub mod syncer;
