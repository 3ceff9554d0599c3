use vstd::prelude::*;
use crate::generator::{RandGenerator, MODULUS};

verus! {

/// The table slot that the selecting draw `u` picks among `k` slots: the whole
/// part of `(u / MODULUS) * k`.
pub open spec fn slot(u: u32, k: nat) -> int {
    (u as int * k as int) / (MODULUS as int)
}

/// The table as it stands after `n` draws of a combiner that starts with
/// `table` and with the two generators as given: each draw overwrites the slot
/// that the secondary generator picked with a new draw of the primary one.
pub open spec fn table_after<G1: RandGenerator, G2: RandGenerator>(
    table: Seq<u32>,
    primary: G1,
    secondary: G2,
    n: nat,
) -> Seq<u32>
    decreases n,
{
    if n == 0 {
        table
    } else {
        let earlier = (n - 1) as nat;
        table_after(table, primary, secondary, earlier).update(
            slot(secondary.upcoming(earlier), table.len()),
            primary.upcoming(earlier),
        )
    }
}

/// Table-shuffling combiner of two generators: the secondary one picks a slot
/// of the table, whose value is handed out and replaced by a new draw of the
/// primary one.
pub struct McLarenMarsagliaMethod<G1: RandGenerator, G2: RandGenerator> {
    generator1: G1,
    generator2: G2,
    table: Vec<u32>,
}

impl<G1: RandGenerator, G2: RandGenerator> McLarenMarsagliaMethod<G1, G2> {
    /// The generator that fills the table.
    pub closed spec fn primary(&self) -> G1 {
        self.generator1
    }

    /// The generator that picks the slot.
    pub closed spec fn secondary(&self) -> G2 {
        self.generator2
    }

    /// The table's current contents.
    pub closed spec fn table(&self) -> Seq<u32> {
        self.table@
    }

    /// A combiner whose table holds the first `table_size` draws of
    /// `generator1`, in the order drawn; `generator2` is kept untouched.
    pub fn new(generator1: G1, generator2: G2, table_size: usize) -> (r: Self)
        requires
            generator1.wf(),
            generator2.wf(),
            table_size >= 1,
        ensures
            r.wf(),
            r.table().len() == table_size,
            forall|j: int| 0 <= j < table_size ==> r.table()[j] == generator1.upcoming(j as nat),
            forall|i: nat| #[trigger]
                r.primary().upcoming(i) == generator1.upcoming(i + table_size as nat),
            r.secondary() == generator2,
    {
        let mut primary = generator1;
        let mut table: Vec<u32> = Vec::new();
        let _ = table.try_reserve(table_size);
        let mut filled: usize = 0;
        while filled < table_size
            invariant
                filled <= table_size,
                primary.wf(),
                table@.len() == filled,
                forall|j: int| 0 <= j < filled ==> table@[j] == generator1.upcoming(j as nat),
                forall|j: int| 0 <= j < filled ==> table@[j] < MODULUS,
                forall|i: nat| #[trigger]
                    primary.upcoming(i) == generator1.upcoming(i + filled as nat),
            decreases table_size - filled,
        {
            let value = primary.rand();
            table.push(value);
            filled = filled + 1;
        }
        McLarenMarsagliaMethod { generator1: primary, generator2, table }
    }

    /// The number of slots in the table, fixed at construction.
    pub fn table_size(&self) -> (k: usize)
        ensures
            k == self.table().len(),
    {
        self.table.len()
    }
}

impl<G1: RandGenerator, G2: RandGenerator> RandGenerator for McLarenMarsagliaMethod<G1, G2> {
    open spec fn wf(&self) -> bool {
        &&& self.primary().wf()
        &&& self.secondary().wf()
        &&& self.table().len() >= 1
        &&& forall|j: int| 0 <= j < self.table().len() ==> #[trigger] self.table()[j] < MODULUS
    }

    open spec fn upcoming(&self, i: nat) -> u32 {
        table_after(self.table(), self.primary(), self.secondary(), i)[slot(
            self.secondary().upcoming(i),
            self.table().len(),
        )]
    }

    proof fn upcoming_in_range(&self, i: nat) {
        lemma_table_after_valid(self.table(), self.primary(), self.secondary(), i);
        self.secondary().upcoming_in_range(i);
        lemma_slot_in_table(self.secondary().upcoming(i), self.table().len());
    }

    fn rand(&mut self) -> (r: u32)
        ensures
            r == old(self).table()[slot(
                old(self).secondary().upcoming(0),
                old(self).table().len(),
            )],
            final(self).table() == old(self).table().update(
                slot(old(self).secondary().upcoming(0), old(self).table().len()),
                old(self).primary().upcoming(0),
            ),
            final(self).table().len() == old(self).table().len(),
            forall|i: nat| #[trigger]
                final(self).primary().upcoming(i) == old(self).primary().upcoming(i + 1),
            forall|i: nat| #[trigger]
                final(self).secondary().upcoming(i) == old(self).secondary().upcoming(i + 1),
    {
        let size: usize = self.table.len();
        let pick = self.generator2.rand();
        proof {
            lemma_slot_in_table(pick, size as nat);
        }
        let index: usize = ((pick as u128 * size as u128) / (MODULUS as u128)) as usize;
        let result = self.table[index];
        let value = self.generator1.rand();
        self.table.set(index, value);
        proof {
            assert forall|i: nat| #[trigger] self.upcoming(i) == old(self).upcoming(i + 1) by {
                lemma_table_after_shift(
                    old(self).table(),
                    old(self).primary(),
                    old(self).secondary(),
                    self.primary(),
                    self.secondary(),
                    i,
                );
            }
        }
        result
    }
}

/// A draw below [`MODULUS`] picks a slot inside a table of `k >= 1` slots.
pub proof fn lemma_slot_in_table(u: u32, k: nat)
    requires
        u < MODULUS,
        k >= 1,
    ensures
        0 <= slot(u, k) < k,
        u as int * k as int >= 0,
        u as int * k as int <= 0x7fff_ffff * k,
{
    let m = MODULUS as int;
    assert(0 <= u as int * k as int <= (m - 1) * k) by (nonlinear_arith)
        requires
            0 <= u < m,
            k >= 1,
    ;
    assert((u as int * k as int) / m < k) by (nonlinear_arith)
        requires
            0 <= u as int * k as int <= (m - 1) * k,
            m > 0,
            k >= 1,
    ;
}

/// Whatever the number of draws, the table keeps its length and every entry
/// stays below [`MODULUS`].
pub proof fn lemma_table_after_valid<G1: RandGenerator, G2: RandGenerator>(
    table: Seq<u32>,
    primary: G1,
    secondary: G2,
    n: nat,
)
    requires
        primary.wf(),
        secondary.wf(),
        table.len() >= 1,
        forall|j: int| 0 <= j < table.len() ==> #[trigger] table[j] < MODULUS,
    ensures
        table_after(table, primary, secondary, n).len() == table.len(),
        forall|j: int|
            0 <= j < table.len() ==> #[trigger] table_after(table, primary, secondary, n)[j]
                < MODULUS,
    decreases n,
{
    if n > 0 {
        let earlier = (n - 1) as nat;
        lemma_table_after_valid(table, primary, secondary, earlier);
        primary.upcoming_in_range(earlier);
        secondary.upcoming_in_range(earlier);
        lemma_slot_in_table(secondary.upcoming(earlier), table.len());
    }
}

/// After one draw, the table that `n` further draws lead to is the one that
/// `n + 1` draws led to before it.
pub proof fn lemma_table_after_shift<G1: RandGenerator, G2: RandGenerator>(
    table: Seq<u32>,
    primary: G1,
    secondary: G2,
    primary_next: G1,
    secondary_next: G2,
    n: nat,
)
    requires
        secondary.wf(),
        table.len() >= 1,
        forall|i: nat| #[trigger] primary_next.upcoming(i) == primary.upcoming(i + 1),
        forall|i: nat| #[trigger] secondary_next.upcoming(i) == secondary.upcoming(i + 1),
    ensures
        table_after(
            table.update(slot(secondary.upcoming(0), table.len()), primary.upcoming(0)),
            primary_next,
            secondary_next,
            n,
        ) == table_after(table, primary, secondary, n + 1),
    decreases n,
{
    secondary.upcoming_in_range(0);
    lemma_slot_in_table(secondary.upcoming(0), table.len());
    let first = table.update(slot(secondary.upcoming(0), table.len()), primary.upcoming(0));
    if n == 0 {
        assert(table_after(table, primary, secondary, 0) == table);
    } else {
        let earlier = (n - 1) as nat;
        lemma_table_after_shift(table, primary, secondary, primary_next, secondary_next, earlier);
        assert(primary_next.upcoming(earlier) == primary.upcoming(earlier + 1));
        assert(secondary_next.upcoming(earlier) == secondary.upcoming(earlier + 1));
    }
}

/// Every entry of the table after `n` draws stood in the same slot before
/// them, or is one of the first `n` draws of the primary generator.
pub proof fn lemma_table_after_origin<G1: RandGenerator, G2: RandGenerator>(
    table: Seq<u32>,
    primary: G1,
    secondary: G2,
    n: nat,
    j: int,
)
    requires
        primary.wf(),
        secondary.wf(),
        table.len() >= 1,
        forall|j: int| 0 <= j < table.len() ==> #[trigger] table[j] < MODULUS,
        0 <= j < table.len(),
    ensures
        table_after(table, primary, secondary, n)[j] == table[j] || exists|m: nat|
            m < n && table_after(table, primary, secondary, n)[j] == #[trigger] primary.upcoming(
                m,
            ),
    decreases n,
{
    if n > 0 {
        let earlier = (n - 1) as nat;
        lemma_table_after_origin(table, primary, secondary, earlier, j);
        lemma_table_after_valid(table, primary, secondary, earlier);
        secondary.upcoming_in_range(earlier);
        lemma_slot_in_table(secondary.upcoming(earlier), table.len());
        let value = table_after(table, primary, secondary, n)[j];
        if j == slot(secondary.upcoming(earlier), table.len()) {
            assert(earlier < n && value == primary.upcoming(earlier));
        } else if value != table[j] {
            let m = choose|m: nat|
                m < earlier && table_after(table, primary, secondary, earlier)[j]
                    == #[trigger] primary.upcoming(m);
            assert(m < n && value == primary.upcoming(m));
        }
    }
}

/// A combiner invents nothing: the draw that follows `i` others is a value
/// that stands in its table now, or one of the next `i` draws of its primary
/// generator.
pub proof fn lemma_draw_origin<G1: RandGenerator, G2: RandGenerator>(
    combiner: McLarenMarsagliaMethod<G1, G2>,
    i: nat,
)
    requires
        combiner.wf(),
    ensures
        (exists|j: int|
            0 <= j < combiner.table().len() && combiner.upcoming(i)
                == #[trigger] combiner.table()[j]) || (exists|m: nat|
            m < i && combiner.upcoming(i) == #[trigger] combiner.primary().upcoming(m)),
{
    let j = slot(combiner.secondary().upcoming(i), combiner.table().len());
    combiner.secondary().upcoming_in_range(i);
    lemma_slot_in_table(combiner.secondary().upcoming(i), combiner.table().len());
    lemma_table_after_origin(combiner.table(), combiner.primary(), combiner.secondary(), i, j);
    if combiner.upcoming(i) == combiner.table()[j] {
        assert(0 <= j < combiner.table().len());
    }
}

} // verus!
