//! Shamir's Secret Sharing over the finite field GF(2^8).
//!
//! A secret byte sequence is split into `parts` shares such that any
//! `threshold` of them recover it exactly by Lagrange interpolation,
//! while fewer reveal nothing. Each secret byte is protected by an
//! independent random polynomial whose intercept is that byte.

pub mod gf256;
pub mod polynomial;
mod rng;
pub mod shamir;
