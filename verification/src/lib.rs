//! Probabilistic latent semantic analysis, fitted by expectation-maximization.
//!
//! A model explains a matrix of counts, one row per document and one column
//! per word, by a number of latent topics. [`PLSA`] holds the counts and four
//! families of probabilities, and fits them by rounds of a posterior update
//! and a re-estimation; [`tensor3_broadcast_numpy_like`] is the product of
//! tensors under broadcasting that the rounds are built on.
//!
//! The library is generic over its number type, [`Scalar`], and assumes
//! nothing of its arithmetic. Contracts say exactly which operations on
//! which operands give every result; the module [`exact`] proves what follows
//! for arithmetic that does not round.
pub mod scalar;
pub mod tensor;
pub mod math;
pub mod normalize;
pub mod plsa;
pub mod exact;

pub use math::{tensor3_broadcast_numpy_like, MathError};
pub use plsa::{EMParams, Matrices, Termination, PLSA};
pub use scalar::Scalar;
pub use tensor::{Matrix, Tensor3};
