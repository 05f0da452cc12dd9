#![verifier::loop_isolation(false)]
//! SPDZ-style multi-party computation over a prime field, built on a
//! BGV-like somewhat-homomorphic encryption scheme over Z_q[x]/(x^N + 1).
//!
//! The crate is organised bottom-up: arbitrary-precision integers
//! (`bigint`), dense polynomials (`poly`), the quotient ring R_q
//! (`quotient_ring`), samplers (`prob`), the encryption scheme
//! (`encryption`), and the MPC protocol itself (`mpc`), which talks to
//! its peers through the `Facilitator` capability of `protocol`.

pub mod bigint;
pub mod bytes;
pub mod mpc;
pub mod poly;
pub mod encryption;
pub mod prob;
pub mod protocol;
pub mod quotient_ring;
