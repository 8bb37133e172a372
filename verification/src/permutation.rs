//! Permutations of `{0, ..., n-1}`.

use vstd::prelude::*;

use crate::group::{idx_draw, idx_draw_next, idx_rand, Sampler};

verus! {

/// A permutation, stored as the image vector: position `i` maps to
/// `mapping[i]`.
pub struct Permutation {
    pub mapping: Vec<usize>,
}

impl Permutation {
    /// The defining invariant: every image is in range and no two positions
    /// share an image, so the mapping is a bijection on its index range.
    pub open spec fn valid(&self) -> bool {
        &&& forall|i: int|
            0 <= i < self.mapping@.len() ==> (#[trigger] self.mapping@[i]) < self.mapping@.len()
        &&& forall|i: int, j: int|
            0 <= i < j < self.mapping@.len() ==> self.mapping@[i] != self.mapping@[j]
    }

    /// The size of the permuted range.
    pub open spec fn spec_size(&self) -> nat {
        self.mapping@.len()
    }

    /// The image of `i`.
    pub open spec fn at(&self, i: int) -> int {
        self.mapping@[i] as int
    }

    pub fn size(&self) -> (r: usize)
        ensures
            r == self.spec_size(),
    {
        self.mapping.len()
    }

    /// The identity permutation.
    pub fn identity(size: usize) -> (r: Permutation)
        ensures
            r.valid(),
            r.spec_size() == size,
            forall|i: int| 0 <= i < size ==> r.at(i) == i,
    {
        let mut mapping: Vec<usize> = Vec::new();
        let mut i: usize = 0;
        while i < size
            invariant
                i <= size,
                mapping@.len() == i,
                forall|k: int| 0 <= k < i ==> mapping@[k] == k,
            decreases size - i,
        {
            mapping.push(i);
            i = i + 1;
        }
        Permutation { mapping }
    }

    /// A uniformly random permutation, by index-swapping from the
    /// identity: the result and the generator state it leaves behind are
    /// deterministic functions of the entry state.
    pub fn sample(rng: &mut Sampler, size: usize) -> (r: Permutation)
        ensures
            r.valid(),
            r.spec_size() == size,
            r.mapping@ == sample_map(old(rng)@, size as nat, size as nat),
            final(rng)@ == sample_state(old(rng)@, size as nat),
    {
        let ghost s0 = rng@;
        let mut p = Permutation::identity(size);
        proof {
            assert forall|k: int| 0 <= k < size implies p.mapping@[k] == (k as usize) by {
                assert(p.at(k) == k);
            }
            assert(p.mapping@ =~= sample_map(s0, size as nat, 0));
        }
        let mut i: usize = 0;
        while i < size
            invariant
                i <= size,
                p.valid(),
                p.spec_size() == size,
                rng@ == sample_state(s0, i as nat),
                p.mapping@ == sample_map(s0, size as nat, i as nat),
            decreases size - i,
        {
            let j = idx_rand(rng, i + 1);
            let a = p.mapping[i];
            let b = p.mapping[j];
            p.mapping[i] = b;
            p.mapping[j] = a;
            i = i + 1;
        }
        p
    }
}

/// The generator state after the first `k` index draws of a sampling run:
/// the `k`-th draw is made below the bound `k + 1`.
pub open spec fn sample_state(s: nat, k: nat) -> nat
    decreases k,
{
    if k == 0 {
        s
    } else {
        idx_draw_next(sample_state(s, (k - 1) as nat), k)
    }
}

/// The mapping after the first `k` swap steps of a sampling run that
/// started from the identity on `size` positions: step `k` swaps position
/// `k - 1` with the drawn position at or below it.
pub open spec fn sample_map(s: nat, size: nat, k: nat) -> Seq<usize>
    decreases k,
{
    if k == 0 {
        Seq::new(size, |i: int| i as usize)
    } else {
        let prev = sample_map(s, size, (k - 1) as nat);
        let j = idx_draw(sample_state(s, (k - 1) as nat), k) as int;
        prev.update(k - 1, prev[j]).update(j, prev[k - 1])
    }
}

} // verus!
