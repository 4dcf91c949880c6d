//! Stepwise evaluation of the BN254 pairing check behind a Groth16 verifier.
//!
//! A host that bounds the work of one call cannot run a pairing in one piece.
//! Here the computation is cut into steps: each reads its inputs from named
//! slots of a [`store::Store`], computes one value and writes one slot back,
//! so that a driver can spread the whole check over many short calls.
//!
//! - [`field`] holds the elements of the degree-12 extension field and their
//!   encoding, [`backend`] the arithmetic on them.
//! - [`store`] holds the slots.
//! - [`final_exponentiation`] holds the phases of the final exponentiation and
//!   the dispatcher that routes a call to its phase.
//! - [`schedule`] holds the order of those calls, and runs them all.
//! - [`miller_loop`] holds the order of the calls of a Miller loop.
//! - [`error`] holds the errors.

pub mod backend;
pub mod error;
pub mod field;
pub mod final_exponentiation;
pub mod miller_loop;
pub mod schedule;
pub mod store;
