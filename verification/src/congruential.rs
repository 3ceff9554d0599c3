use vstd::prelude::*;
use vstd::arithmetic::div_mod::lemma_mul_mod_noop_left;
use vstd::arithmetic::mul::lemma_mul_is_associative;
use vstd::arithmetic::power::{lemma_pow1, pow};
use crate::generator::{RandGenerator, MODULUS};

verus! {

/// The multiplier that a generator built with the constant `c` uses:
/// the larger of `c` and `MODULUS - c`.
pub open spec fn multiplier_for(c: u32) -> u32 {
    if c >= MODULUS - c {
        c
    } else {
        (MODULUS - c) as u32
    }
}

/// One step of the recurrence: `state * b` reduced modulo [`MODULUS`].
pub open spec fn next_state(state: u32, b: u32) -> u32 {
    ((state as int * b as int) % (MODULUS as int)) as u32
}

/// The state after `n` steps of the recurrence from `state`.
pub open spec fn nth_state(state: u32, b: u32, n: nat) -> u32
    decreases n,
{
    if n == 0 {
        state
    } else {
        next_state(nth_state(state, b, (n - 1) as nat), b)
    }
}

/// Multiplicative congruential generator modulo `2^31`.
pub struct MultiplicativeCongruentialMethod {
    state: u32,
    b: u32,
}

impl MultiplicativeCongruentialMethod {
    /// The current state: the numerator of the last draw, or the seed.
    pub closed spec fn state(&self) -> u32 {
        self.state
    }

    /// The multiplier, fixed at construction.
    pub closed spec fn multiplier(&self) -> u32 {
        self.b
    }

    /// A generator seeded with `a`, multiplying by the larger of `c` and
    /// `MODULUS - c`.
    pub fn new(a: u32, c: u32) -> (r: MultiplicativeCongruentialMethod)
        ensures
            r.state() == a,
            r.multiplier() == multiplier_for(c),
    {
        let b: u32 = if c >= MODULUS {
            c
        } else if c >= MODULUS - c {
            c
        } else {
            MODULUS - c
        };
        MultiplicativeCongruentialMethod { state: a, b }
    }
}

impl RandGenerator for MultiplicativeCongruentialMethod {
    open spec fn wf(&self) -> bool {
        true
    }

    open spec fn upcoming(&self, i: nat) -> u32 {
        nth_state(self.state(), self.multiplier(), i + 1)
    }

    proof fn upcoming_in_range(&self, i: nat) {
    }

    fn rand(&mut self) -> (r: u32)
        ensures
            final(self).state() == next_state(old(self).state(), old(self).multiplier()),
            final(self).multiplier() == old(self).multiplier(),
            r == final(self).state(),
    {
        assert(self.state as u64 * self.b as u64 <= 0xffff_ffff * 0xffff_ffff)
            by (nonlinear_arith);
        let product: u64 = self.state as u64 * self.b as u64;
        self.state = (product % (MODULUS as u64)) as u32;
        proof {
            assert(nth_state(old(self).state, self.b, 0) == old(self).state);
            assert forall|i: nat| #[trigger]
                self.upcoming(i) == old(self).upcoming(i + 1) by {
                lemma_nth_state_shift(old(self).state, self.b, i + 1);
            }
        }
        self.state
    }
}

/// Taking one step first and `n` steps after is taking `n + 1` steps.
pub proof fn lemma_nth_state_shift(state: u32, b: u32, n: nat)
    ensures
        nth_state(next_state(state, b), b, n) == nth_state(state, b, n + 1),
    decreases n,
{
    if n == 0 {
        assert(nth_state(state, b, 0) == state);
    } else {
        lemma_nth_state_shift(state, b, (n - 1) as nat);
    }
}

/// The recurrence in closed form: after `n >= 1` steps from the seed `a` the
/// state is `a * b^n` reduced modulo [`MODULUS`], whatever the seed's size.
pub proof fn lemma_nth_state_closed_form(a: u32, b: u32, n: nat)
    requires
        n >= 1,
    ensures
        nth_state(a, b, n) == (a * pow(b as int, n)) % (MODULUS as int),
    decreases n,
{
    let m = MODULUS as int;
    if n == 1 {
        assert(nth_state(a, b, 0) == a);
        lemma_pow1(b as int);
    } else {
        let e = (n - 1) as nat;
        lemma_nth_state_closed_form(a, b, e);
        let x = a * pow(b as int, e);
        assert(nth_state(a, b, n) == ((x % m) * b) % m);
        lemma_mul_mod_noop_left(x, b as int, m);
        lemma_mul_is_associative(a as int, pow(b as int, e), b as int);
        assert(pow(b as int, n) == b * pow(b as int, e)) by {
            reveal(pow);
        }
        assert(pow(b as int, e) * b == b * pow(b as int, e)) by (nonlinear_arith);
    }
}

/// A generator's draws are fixed by its seed and constant: the draw that
/// follows `i` others from a generator in the state that `new(a, c)` builds is
/// `a * b^(i + 1)` modulo [`MODULUS`], with `b` the multiplier for `c`.
pub proof fn lemma_draws_fixed_by_seed(
    g: MultiplicativeCongruentialMethod,
    a: u32,
    c: u32,
    i: nat,
)
    requires
        g.state() == a,
        g.multiplier() == multiplier_for(c),
    ensures
        g.upcoming(i) == (a * pow(multiplier_for(c) as int, i + 1)) % (MODULUS as int),
{
    lemma_nth_state_closed_form(a, multiplier_for(c), i + 1);
}

/// Two generators with the same seed and the same constant hand out the same
/// sequence of draws.
pub proof fn lemma_same_seed_same_draws(
    g1: MultiplicativeCongruentialMethod,
    g2: MultiplicativeCongruentialMethod,
    i: nat,
)
    requires
        g1.state() == g2.state(),
        g1.multiplier() == g2.multiplier(),
    ensures
        g1.upcoming(i) == g2.upcoming(i),
{
}

} // verus!
