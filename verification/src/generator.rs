use vstd::prelude::*;

verus! {

/// Denominator of every draw: a generator returns `r` and means `r / MODULUS`.
pub const MODULUS: u32 = 0x8000_0000;

/// A source of uniform draws in `[0, 1)`, each given as its numerator over
/// [`MODULUS`].
///
/// A generator is modelled by the sequence of draws that it has yet to hand
/// out: `upcoming(0)` is what the next call of `rand` returns, and each call
/// moves the sequence on by one.
pub trait RandGenerator {
    /// Whether the generator's state is valid.
    spec fn wf(&self) -> bool;

    /// The draw that the call of `rand` after `i` further calls will return.
    spec fn upcoming(&self, i: nat) -> u32;

    /// Every draw still to come lies below [`MODULUS`].
    proof fn upcoming_in_range(&self, i: nat)
        requires
            self.wf(),
        ensures
            self.upcoming(i) < MODULUS,
    ;

    /// Hands out the next draw and advances the generator by one step.
    fn rand(&mut self) -> (r: u32)
        requires
            old(self).wf(),
        ensures
            final(self).wf(),
            r < MODULUS,
            r == old(self).upcoming(0),
            forall|i: nat| #[trigger] final(self).upcoming(i) == old(self).upcoming(i + 1),
    ;
}

} // verus!
