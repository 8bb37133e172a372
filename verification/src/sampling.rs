//! Sampling vectors of random values from a deterministic source.

use vstd::prelude::*;

use crate::elgamal::Ciphertext;
use crate::group::{
    fr_draw, fr_draw_next, fr_rand, fr_val, g1_draw, g1_draw_next, g1_rand, Sampler,
};
use crate::zq::in_f;

verus! {

/// The generator state after drawing `k` scalars.
pub open spec fn fr_stream_state(s: nat, k: nat) -> nat
    decreases k,
{
    if k == 0 {
        s
    } else {
        fr_draw_next(fr_stream_state(s, (k - 1) as nat))
    }
}

/// The value of the `k`-th scalar drawn from state `s`.
pub open spec fn fr_stream_val(s: nat, k: nat) -> int {
    fr_draw(fr_stream_state(s, k))
}

/// The generator state after drawing `k` group elements.
pub open spec fn g1_stream_state(s: nat, k: nat) -> nat
    decreases k,
{
    if k == 0 {
        s
    } else {
        g1_draw_next(g1_stream_state(s, (k - 1) as nat))
    }
}

/// The discrete logarithm of the `k`-th group element drawn from state `s`.
pub open spec fn g1_stream_val(s: nat, k: nat) -> int {
    g1_draw(g1_stream_state(s, k))
}

/// Scalar draws compose: drawing `a` and then `b` scalars is drawing
/// `a + b`.
pub proof fn lemma_fr_stream_compose(s: nat, a: nat, b: nat)
    ensures
        fr_stream_state(fr_stream_state(s, a), b) == fr_stream_state(s, (a + b) as nat),
    decreases b,
{
    if b > 0 {
        lemma_fr_stream_compose(s, a, (b - 1) as nat);
    }
}

/// Group-element draws compose likewise.
pub proof fn lemma_g1_stream_compose(s: nat, a: nat, b: nat)
    ensures
        g1_stream_state(g1_stream_state(s, a), b) == g1_stream_state(s, (a + b) as nat),
    decreases b,
{
    if b > 0 {
        lemma_g1_stream_compose(s, a, (b - 1) as nat);
    }
}

/// Sample a vector of random scalars.  The result is a deterministic
/// function of the generator state.
pub fn sample_vector(rng: &mut Sampler, length: usize) -> (r: Vec<ark_bn254::Fr>)
    ensures
        r@.len() == length,
        forall|k: int|
            0 <= k < length ==> fr_val(#[trigger] r@[k]) == fr_stream_val(old(rng)@, k as nat),
        forall|k: int| 0 <= k < length ==> in_f(fr_val(#[trigger] r@[k])),
        final(rng)@ == fr_stream_state(old(rng)@, length as nat),
{
    let ghost s0 = rng@;
    let mut out: Vec<ark_bn254::Fr> = Vec::new();
    let mut i: usize = 0;
    while i < length
        invariant
            i <= length,
            out@.len() == i,
            rng@ == fr_stream_state(s0, i as nat),
            forall|k: int| 0 <= k < i ==> fr_val(#[trigger] out@[k]) == fr_stream_val(s0, k as nat),
            forall|k: int| 0 <= k < i ==> in_f(fr_val(#[trigger] out@[k])),
        decreases length - i,
    {
        let x = fr_rand(rng);
        out.push(x);
        i = i + 1;
    }
    out
}

/// Sample a vector of random ciphertexts: each component an independent
/// uniform group element, taken in order from the generator's point
/// stream.
pub fn sample_ciphertexts(rng: &mut Sampler, length: usize) -> (r: Vec<Ciphertext>)
    ensures
        r@.len() == length,
        forall|k: int|
            0 <= k < length ==> (#[trigger] r@[k])@ == (
                g1_stream_val(old(rng)@, (2 * k) as nat),
                g1_stream_val(old(rng)@, (2 * k + 1) as nat),
            ),
        final(rng)@ == g1_stream_state(old(rng)@, (2 * length) as nat),
{
    let ghost s0 = rng@;
    let mut out: Vec<Ciphertext> = Vec::new();
    let mut i: usize = 0;
    while i < length
        invariant
            i <= length,
            out@.len() == i,
            rng@ == g1_stream_state(s0, (2 * i) as nat),
            forall|k: int|
                0 <= k < i ==> (#[trigger] out@[k])@ == (
                    g1_stream_val(s0, (2 * k) as nat),
                    g1_stream_val(s0, (2 * k + 1) as nat),
                ),
        decreases length - i,
    {
        let c1 = g1_rand(rng);
        let c2 = g1_rand(rng);
        out.push(Ciphertext { c1, c2 });
        proof {
            assert(g1_stream_state(s0, (2 * i + 1) as nat) == g1_draw_next(
                g1_stream_state(s0, (2 * i) as nat),
            ));
            assert(g1_stream_state(s0, (2 * i + 2) as nat) == g1_draw_next(
                g1_stream_state(s0, (2 * i + 1) as nat),
            ));
        }
        i = i + 1;
    }
    out
}

} // verus!
