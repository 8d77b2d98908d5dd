//! Circuit gadgets for BLS12-381 arithmetic emulated over a foreign proving
//! field: bounded-width limb elements for the base field, the quadratic /
//! cubic / sextic tower extensions built on them, and the affine G1 group
//! law, each operation proved against its mathematical meaning modulo the
//! base-field prime.

pub mod arith;
pub mod bigint;
pub mod circuit;
pub mod fields;
pub mod curves;
pub mod laws;
