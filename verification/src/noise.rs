//! Seeded permutation table for gradient-noise lookups.
//!
//! The table is the deterministic heart of the noise engine: a seeded
//! shuffle of the byte values `0..=255`, stored twice so that a wrapped
//! double lookup never leaves the table. Every lattice point of the noise
//! grid hashes through this table to a gradient index.
use vstd::prelude::*;

use rand::SeedableRng;
use rand::seq::SliceRandom;

verus! {

/// What a seeded shuffle leaves in place of a byte sequence: a fixed
/// rearrangement determined by the seed and the input sequence alone.
pub uninterp spec fn shuffled(seed: u64, s: Seq<u8>) -> Seq<u8>;

/// Relies on rand's `StdRng::seed_from_u64` and `SliceRandom::shuffle`:
/// seeding from a `u64` is a fixed expansion of the seed, and `shuffle`
/// permutes the slice in place by Durstenfeld's algorithm, drawing only on
/// the generator's state. The outcome is therefore a permutation of the
/// input determined by the seed and the input alone.
#[verifier::external_body]
fn shuffle_seeded(values: &mut Vec<u8>, seed: u64)
    ensures
        final(values)@ == shuffled(seed, old(values)@),
        final(values)@.to_multiset() == old(values)@.to_multiset(),
        final(values)@.len() == old(values)@.len(),
{
    let mut rng = rand::rngs::StdRng::seed_from_u64(seed);
    values.as_mut_slice().shuffle(&mut rng);
}

/// The byte values 0..=255 in order, the sequence a shuffle starts from.
pub open spec fn identity_bytes() -> Seq<u8> {
    Seq::new(256, |i: int| i as u8)
}

/// The 512-entry table a given seed produces: a seeded shuffle of the byte
/// values 0..=255, followed by a copy of itself.
pub open spec fn table_spec(seed: u64) -> Seq<u8> {
    shuffled(seed, identity_bytes()) + shuffled(seed, identity_bytes())
}

/// The gradient index a table assigns to the lattice point `(x, y)`:
/// a wrapped double lookup, reduced to one of the 16 gradient directions.
pub open spec fn spec_gradient_index(t: Seq<u8>, x: int, y: int) -> int {
    (t[((t[x % 256] as int) + y % 256) % 256] as int) % 16
}

/// A length-512 permutation table: each byte value appears exactly twice,
/// and the second half repeats the first.
pub struct PermutationTable {
    table: Vec<u8>,
}

impl View for PermutationTable {
    type V = Seq<u8>;

    closed spec fn view(&self) -> Seq<u8> {
        self.table@
    }
}

impl PermutationTable {
    /// The structural invariant: 512 entries, second half equal to the first.
    pub open spec fn wf(&self) -> bool {
        &&& self@.len() == 512
        &&& forall|i: int| 0 <= i < 256 ==> #[trigger] self@[i + 256] == self@[i]
    }

    /// Build the table for a seed. The same seed always yields the same
    /// table, and every byte value 0..=255 appears in it exactly twice.
    pub fn new(seed: u64) -> (t: PermutationTable)
        ensures
            t@ == table_spec(seed),
            t.wf(),
            forall|b: u8| #[trigger] t@.to_multiset().count(b) == 2,
    {
        let mut first: Vec<u8> = Vec::new();
        let mut i: usize = 0;
        while i < 256
            invariant
                i <= 256,
                first@.len() == i,
                forall|j: int| 0 <= j < i ==> first@[j] == j as u8,
            decreases 256 - i,
        {
            first.push(i as u8);
            i = i + 1;
        }
        assert(first@ =~= identity_bytes());

        shuffle_seeded(&mut first, seed);

        let mut table: Vec<u8> = Vec::new();
        let mut i: usize = 0;
        while i < 256
            invariant
                i <= 256,
                first@.len() == 256,
                table@ =~= first@.subrange(0, i as int),
            decreases 256 - i,
        {
            table.push(first[i]);
            i = i + 1;
        }
        let mut i: usize = 0;
        while i < 256
            invariant
                i <= 256,
                first@.len() == 256,
                table@ =~= first@ + first@.subrange(0, i as int),
            decreases 256 - i,
        {
            table.push(first[i]);
            i = i + 1;
        }
        assert(table@ =~= first@ + first@);

        proof {
            lemma_identity_counts_once();
            vstd::seq_lib::lemma_multiset_commutative(first@, first@);
            broadcast use vstd::multiset::group_multiset_axioms;

            assert forall|b: u8| #[trigger] table@.to_multiset().count(b) == 2 by {
                assert(first@.to_multiset().count(b) == 1);
            }
        }

        PermutationTable { table }
    }

    /// The raw 512 table entries.
    pub fn bytes(&self) -> (b: &Vec<u8>)
        ensures
            b@ == self@,
    {
        &self.table
    }

    /// The gradient index for the lattice point `(x, y)`: hash the wrapped
    /// coordinates through the table and reduce to one of the 16 directions.
    pub fn gradient_index(&self, x: usize, y: usize) -> (g: usize)
        requires
            self.wf(),
        ensures
            g == spec_gradient_index(self@, x as int, y as int),
            g < 16,
    {
        let xw = x % 256;
        let yw = y % 256;
        let hash = self.table[(self.table[xw] as usize + yw) % 256];
        (hash % 16) as usize
    }
}

/// Each byte value occurs exactly once among 0..=255.
proof fn lemma_identity_counts_once()
    ensures
        forall|b: u8| #[trigger] identity_bytes().to_multiset().count(b) == 1,
{
    let id = identity_bytes();
    assert(id.no_duplicates()) by {
        assert forall|i: int, j: int|
            0 <= i < id.len() && 0 <= j < id.len() && i != j implies id[i] != id[j] by {
            assert(id[i] == i as u8);
            assert(id[j] == j as u8);
        }
    }
    id.lemma_multiset_has_no_duplicates();
    broadcast use vstd::seq_lib::group_to_multiset_ensures;

    assert forall|b: u8| #[trigger] id.to_multiset().count(b) == 1 by {
        assert(id[b as int] == b);
        assert(id.contains(b));
    }
}

/// The lattice hash is a function of the seed alone: two tables built from
/// the same seed assign the same gradient index to every lattice point.
pub proof fn lemma_gradient_deterministic(
    a: PermutationTable,
    b: PermutationTable,
    seed: u64,
    x: int,
    y: int,
)
    requires
        a@ == table_spec(seed),
        b@ == table_spec(seed),
    ensures
        spec_gradient_index(a@, x, y) == spec_gradient_index(b@, x, y),
{
}

} // verus!
