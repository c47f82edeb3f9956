//! The permutation as a value that is handed to a caller's function.
use vstd::prelude::*;

use crate::permutation::{keccak_f, keccak_f1600, State1600};

verus! {

/// The 1600-bit permutation, as a value.
#[derive(Debug, Copy, Clone)]
pub struct Fn1600;

impl Fn1600 {
    /// Permutes `state` in place.
    pub fn apply(self, state: &mut State1600)
        ensures
            final(state)@ == keccak_f(old(state)@),
    {
        f1600(state);
    }
}

/// Permutes `state` in place.
pub fn f1600(state: &mut State1600)
    ensures
        final(state)@ == keccak_f(old(state)@),
{
    keccak_f1600(state);
}

/// Gives out the permutation.
#[derive(Debug, Copy, Clone)]
pub struct Keccak;

impl Default for Keccak {
    fn default() -> (k: Self)
        ensures
            k == Keccak,
    {
        Keccak
    }
}

impl Keccak {
    /// The only value of the type.
    #[must_use]
    pub fn new() -> (k: Self)
        ensures
            k == Keccak,
    {
        Keccak
    }

    /// Calls `f` once, with the 1600-bit permutation as its argument.
    pub fn with_f1600<F: FnOnce(Fn1600)>(&self, f: F)
        requires
            f.requires((Fn1600,)),
        ensures
            f.ensures((Fn1600,), ()),
    {
        f(Fn1600);
    }
}

} // verus!
