//! Accounting core of a two-tranche lending pool.
//!
//! The pool ledger tracks per-participant balances, the aggregate supply,
//! a yield rate in basis points, and a coarse lifecycle state. Every
//! mutation is all-or-nothing, and the central invariant — the aggregate
//! supply equals the sum of all balances plus what has been repaid into
//! the pool — is proved to hold in every reachable state.

pub mod model;
pub mod pool;
