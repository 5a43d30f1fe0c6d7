//! Abraham, Amit and Dolev's asynchronous approximate agreement: in every
//! round, all nodes reliably broadcast their values, announce the first
//! `n - f` broadcasts they accepted (the witness technique), and move to the
//! midpoint of the values that remain after dropping the `f` lowest and the
//! `f` highest.

pub mod msg;
pub mod roundvals;
pub mod echo;
pub mod context;
