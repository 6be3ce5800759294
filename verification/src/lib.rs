//! Threshold secret-sharing vote gate.
//!
//! A dealer commits a polynomial over a small prime field and hands each
//! participant one share.  Participants vote exactly once; the first
//! `threshold` affirmative votes deposit their shares with the vote gate.  Once a
//! quorum of affirmative votes exists, Lagrange interpolation at the origin
//! reconstructs the dealer's secret, and a one-way upgrade is allowed exactly
//! when the reconstructed value matches the expected constant.

pub mod field;
pub mod gate;
pub mod laws;
pub mod reconstruct;
