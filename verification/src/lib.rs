//! A strongly specified bra-ket algebra over exact complex amplitudes.
//!
//! Dual vectors ([`Bra`]), state vectors ([`Ket`]) and linear operators
//! ([`Outer`]) over finite-dimensional complex vector spaces, with a catalogue
//! of canonical basis states and standard gates. Amplitudes are exact values
//! in the ring `(a + b*sqrt(2) + (c + d*sqrt(2))*i) / 2^k` (see [`Scalar`]),
//! so the algebraic identities of the catalogue hold exactly.
//!
//! Dimensions are runtime values; every product checks that its operands'
//! dimensions agree and reports a typed error when they do not.

use vstd::prelude::*;

pub mod bra;
pub mod ket;
pub mod linear;
pub mod outer;
pub mod scalar;
pub mod states;

pub use bra::Bra;
pub use ket::Ket;
pub use outer::Outer;
pub use scalar::Scalar;

verus! {

/// The ways a construction or product can fail.
#[derive(Clone, Copy, Debug, PartialEq, Eq, Structural)]
pub enum QuantError {
    /// Operands of a product or sum have different dimensions.
    DimensionMismatch,
    /// A requested dimension is not a power of two.
    InvalidDimension,
    /// A bit pattern does not fit within the requested dimension's bit-width.
    InsufficientCapacity,
    /// A power-of-two dimension whose transform needs finer roots of unity
    /// than the exact amplitude ring holds (anything beyond eighth roots).
    UnsupportedDimension,
}

} // verus!
