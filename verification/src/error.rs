use vstd::prelude::*;

verus! {

/// The ways in which engine construction or modular-inverse computation
/// can fail.
#[derive(Debug, Clone, Copy, PartialEq, Eq)]
pub enum OptimusError {
    /// The supplied multiplicative factor failed the primality check.
    NotPrime,
    /// The factor has no multiplicative inverse modulo `MAX_INT + 1`.
    NoModInverse,
}

} // verus!
