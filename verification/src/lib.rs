//! Arithmetic over the Mersenne-prime field of order 2^31 - 1 and its
//! degree-4 tower extension (a quadratic extension of a complex-like
//! quadratic extension), as used by proof systems that need fast modular
//! reduction together with a field large enough for soundness margins.

pub mod basefield;
pub mod extensionfield;
pub mod laws;
