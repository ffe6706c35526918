//! A reverse-mode automatic-differentiation engine for fixed-shape tensors.
//!
//! A caller builds an arithmetic expression lazily while forward values are
//! computed eagerly; a single backward pass over the recorded tape returns the
//! gradient of a scalar output with respect to every tensor that fed it.
//! Scalar arithmetic itself (an IEEE-754 float backend, say) is supplied by
//! the caller through the [`scalar::Scalar`] trait; everything the engine does
//! with those scalars — shape algebra, element correspondence of reductions
//! and broadcasts, the tape, and gradient accumulation — is stated in the
//! contracts below and proved.

pub mod axes;
pub mod kinds;
pub mod device;
pub mod laws;
pub mod losses;
pub mod ops;
pub mod scalar;
pub mod store;
pub mod tensor;
