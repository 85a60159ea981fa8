//! A univariate STARK prover and verifier over a two-adic field.
//!
//! An arithmetization is a list of symbolic constraints on two adjacent rows
//! of a trace. The prover commits to the trace, folds the constraints with a
//! challenge, divides by the zerofier of the trace domain on an extended
//! coset, decomposes the quotient into parts of the trace's degree, commits
//! to them, and opens both commitments at an out-of-domain point. The
//! verifier replays the transcript, has the openings checked, and checks at
//! that point that the folded constraints are the zerofier times the
//! quotient.
//!
//! The field, its extension, the commitment scheme and the challenger are
//! interfaces: [`field::Field`], [`extension::ExtensionField`] and
//! [`config::StarkConfig`]. The Baby Bear field and its quartic extension
//! implement the first two, with the arithmetic of `p3_baby_bear` and
//! `p3_field`.
//!
//! - [`field`], [`extension`]: the two interfaces and the algebra derived
//!   from them; [`baby_bear`], [`baby_bear_quartic`]: their implementations.
//! - [`util`], [`matrix`]: powers of two and row-major matrices.
//! - [`zerofier_coset`]: the zerofier and the Lagrange selectors on a coset.
//! - [`decompose`], [`flatten`]: the decomposition of the quotient, and its
//!   inverse.
//! - [`parts`]: the parts as the coefficients of a polynomial.
//! - [`symbolic`], [`folder`]: constraints, their degree, their evaluation
//!   and folding.
//! - [`config`], [`stark_proof`]: the configuration and the proof.
//! - [`quotient`], [`prover`], [`verification`]: the protocol.
pub mod baby_bear;
pub mod baby_bear_quartic;
pub mod config;
pub mod decompose;
pub mod extension;
pub mod field;
pub mod flatten;
pub mod folder;
pub mod matrix;
pub mod parts;
pub mod prover;
pub mod quotient;
pub mod stark_proof;
pub mod symbolic;
pub mod util;
pub mod verification;
pub mod zerofier_coset;

pub use crate::prover::{prove, try_prove};
pub use crate::stark_proof::{Commitments, OpenedValues, Proof};
pub use crate::verification::{verify, VerificationError};
