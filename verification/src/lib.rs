//! The protocol engine of a Chaumian e-cash mint backed by Lightning.
//!
//! The mint issues blind signatures against paid Lightning invoices, swaps
//! proofs for fresh signatures of equal value, and burns proofs to pay
//! outgoing invoices. It is a state machine over a store held in memory:
//! each operation takes the mint and a request, and where a Lightning
//! backend has to be asked, the backend is handed in.
//!
//! Every function carries a contract that Verus proves. The calls into other
//! crates (the curve arithmetic and hashes of `bitcoin`, the invoice parser
//! of `lightning-invoice`, the ids of `uuid`, the clock) stand behind a few
//! functions whose contracts are taken on trust; each of them says what it
//! calls and what is claimed of it.
//!
//! - [`amount`], [`units`]: amounts, their sums and their split into powers
//!   of two; units and their conversion.
//! - [`dhke`], [`keyset`], [`conditions`], [`secret`]: signing and
//!   verifying, the mint's keys, proofs locked to keys or hashes, and the
//!   secrets that spell such a lock out.
//! - [`nuts`], [`error`]: the values of the protocol and the errors.
//! - [`database`]: the store.
//! - [`payment`]: the Lightning backends and what is made of their answers.
//! - [`pubsub`]: what subscribers are told.
//! - [`verification`]: what is checked of inputs and outputs.
//! - [`mint`]: the operations: mint, swap, melt, and what the mint does when
//!   it starts.
//! - [`laws`]: what holds over any run of the operations.

pub mod amount;
pub mod conditions;
pub mod database;
pub mod dhke;
pub mod error;
pub mod keyset;
pub mod laws;
pub mod mint;
pub mod nuts;
pub mod payment;
pub mod pubsub;
pub mod secret;
pub mod units;
pub mod util;
pub mod verification;
