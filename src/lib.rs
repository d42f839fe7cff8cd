//! The elliptic curve E(Fp6): y^2 = x^3 + x + B, over the tower
//! Fp -> Fp2 = Fp[u] / (u^2 - u - 1) -> Fp6 = Fp2[v] / (v^3 - v - 2), with
//! p = 2^62 - 111 * 2^39 + 1 and B = u + 395.
//!
//! Points are held in affine, homogeneous projective and Jacobian
//! coordinates; scalar multiplication runs by double-and-add, through tables
//! of precomputed multiples of a fixed base point (signed radix-16 digits,
//! with a shift point seeding the accumulator), or through tables of odd
//! multiples for signed odd digits. Affine points have compressed and
//! uncompressed byte encodings.
mod ct;
pub mod fp;
pub mod fp2;
pub mod fp6;
pub mod curve;
pub mod jacobian;
pub mod encoding;
pub mod scalar;
pub mod lookup;
pub mod naf;

pub use fp::Fp;
pub use fp2::Fp2;
pub use fp6::Fp6;
pub use curve::{AffinePoint, ProjectivePoint};
pub use jacobian::JacobianPoint;
pub use lookup::{BasePointTable, LookupTable};
pub use naf::NafLookupTable;
