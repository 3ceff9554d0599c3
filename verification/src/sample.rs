use vstd::prelude::*;
use crate::generator::{RandGenerator, MODULUS};

verus! {

/// A generator together with the draws taken from it so far, in draw order.
pub struct RandSet<G: RandGenerator> {
    generator: G,
    data: Vec<u32>,
}

impl<G: RandGenerator> View for RandSet<G> {
    type V = Seq<u32>;

    /// The draws recorded so far, oldest first.
    closed spec fn view(&self) -> Seq<u32> {
        self.data@
    }
}

impl<G: RandGenerator> RandSet<G> {
    /// The generator in its current state.
    pub closed spec fn generator(&self) -> G {
        self.generator
    }

    /// The generator is valid and every recorded draw lies below [`MODULUS`].
    pub open spec fn wf(&self) -> bool {
        &&& self.generator().wf()
        &&& forall|j: int| 0 <= j < self@.len() ==> #[trigger] self@[j] < MODULUS
    }

    /// The `i`-th value of the whole sequence that this collector stands for:
    /// a recorded draw where one is recorded at `i`, else the draw that the
    /// generator will give for that place.
    pub open spec fn sequence(&self, i: nat) -> u32 {
        if i < self@.len() {
            self@[i as int]
        } else {
            self.generator().upcoming((i - self@.len()) as nat)
        }
    }

    /// A collector that owns `generator` and has recorded nothing yet.
    pub fn new(generator: G) -> (r: Self)
        requires
            generator.wf(),
        ensures
            r.wf(),
            r.generator() == generator,
            r@ == Seq::<u32>::empty(),
    {
        RandSet { generator, data: Vec::new() }
    }

    /// Makes room for `size` more draws where the allocator allows it. Neither
    /// the recorded draws nor the generator change.
    pub fn reserve(&mut self, size: usize)
        ensures
            final(self)@ == old(self)@,
            final(self).generator() == old(self).generator(),
    {
        let _ = self.data.try_reserve(size);
    }

    /// Takes one draw from the generator and records it after the others.
    pub fn push(&mut self)
        requires
            old(self).wf(),
        ensures
            final(self).wf(),
            final(self)@ == old(self)@.push(old(self).generator().upcoming(0)),
            forall|i: nat| #[trigger]
                final(self).generator().upcoming(i) == old(self).generator().upcoming(i + 1),
            forall|i: nat| #[trigger] final(self).sequence(i) == old(self).sequence(i),
    {
        let value = self.generator.rand();
        self.data.push(value);
        proof {
            assert forall|i: nat| #[trigger] self.sequence(i) == old(self).sequence(i) by {
                if i > old(self)@.len() {
                    let ahead = (i - self@.len()) as nat;
                    assert(self.generator().upcoming(ahead) == old(self).generator().upcoming(
                        ahead + 1,
                    ));
                }
            }
        }
    }

    /// The number of draws recorded so far.
    pub fn len(&self) -> (n: usize)
        ensures
            n == self@.len(),
    {
        self.data.len()
    }

    /// The draws recorded so far, oldest first.
    pub fn data(&self) -> (d: &Vec<u32>)
        ensures
            d@ == self@,
    {
        &self.data
    }
}

} // verus!
