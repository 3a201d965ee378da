//! Kinematics (forward and inverse) for chains of rigid links joined by
//! rotational, linear or fixed joints.
//!
//! The scalar type of every angle, length and pose is [`scalar::Real`], a
//! checked double-precision number carried opaquely through the verified
//! code; every arithmetic step on it goes through a small set of trusted
//! wrappers whose results are named, so that each derived quantity is pinned
//! to one spec-level expression.

pub mod scalar;
pub mod ik;
pub mod links;
pub mod math;
pub mod matrix;
pub mod transform;
pub mod tree;
pub mod urdf;

pub use scalar::Real;
