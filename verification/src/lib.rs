//! Rank-1 constraints for circuits in ACIR bytecode, and one step of an
//! incremental computation made of such a circuit.
//!
//! A circuit asserts that quadratic expressions over its witnesses are zero.
//! [`bridge`] writes one constraint `1 * accumulator = 0` for each assertion
//! to a constraint system of `ark_relations`. [`model`] says in mathematics
//! what such a pass does, [`laws`] what holds of every pass, and
//! [`soundness`] that each constraint holds exactly if its assertion does.
//!
//! [`simple`] constrains a loaded program as it stands. [`noir`] makes a
//! circuit the step function of a folding scheme: it solves the circuit for
//! the state and the external input with `acvm`, and then, as [`step`] has
//! it, allocates the next state and writes the constraints over the scheme's
//! own variables.
//!
//! The constraint system, the program and the solver are not verified. What
//! is believed of them stands in the contracts of [`r1cs`], [`acir`] and
//! [`field`], with the call that each contract is about.

pub mod acir;
pub mod bridge;
pub mod error;
pub mod field;
pub mod laws;
pub mod model;
pub mod noir;
pub mod r1cs;
pub mod simple;
pub mod soundness;
pub mod step;
