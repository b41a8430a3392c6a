//! Group arithmetic for secq256k1, the curve `y^2 = x^3 + 7` over the prime
//! field whose order is the group order of secp256k1.
//!
//! * [`limbs`] holds 256-bit integers as four 64-bit limbs and arithmetic on
//!   them modulo a prime just below 2^256; [`fp`] and [`fq`] are the base and
//!   the scalar field built on it.
//! * [`curve`] holds points in Jacobian and in affine coordinates, the group
//!   law, scalar multiplication and the compressed encoding; [`batch`]
//!   converts many points to affine form with one inversion.
//! * [`laws`] states what the operations have in common with a group.
//!
//! Every function carries a contract over mathematical integers. Secret
//! values steer no branch: choices between values go through [`ct`].

pub mod ct;
pub mod modmath;
pub mod limbs;
pub mod bytes;
pub mod entropy;
pub mod fp;
pub mod fq;
pub mod curve;
pub mod batch;
pub mod laws;
