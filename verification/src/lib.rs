//! Dense vectors and row-major dense matrices over an arbitrary scalar type.
//!
//! The containers are generic in their element type. Wherever an operation
//! needs arithmetic on the elements (scaling, inner product, Euclidean length)
//! the caller hands in the scalar operations, and the contracts speak of the
//! results through those operations' own postconditions.

pub mod densevector;
pub mod densematrix;
