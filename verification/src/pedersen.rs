//! Pedersen vector commitments.
//!
//! A commit key of length `n` is a vector of `n + 1` independent generators
//! `(H, G_1, ..., G_n)`; the commitment to a vector `v` with blinder `r` is
//! `r * H + sum v_i * G_i`.  The commitment is additively homomorphic in
//! `(v, r)`.

use vstd::prelude::*;

use crate::algebra::{lemma_psum_step, psum};
use crate::error::CryptoError;
use crate::group::{dlog, fr_val, g1_add, g1_mul, g1_rand, g1_draw_next, GroupElem, Sampler};
use crate::sampling::{g1_stream_state, g1_stream_val};
use crate::zq::{fadd, fmul, lemma_fadd_assoc};

verus! {

/// A Pedersen commit key: the blinder generator and the message generators.
pub struct CommitKey {
    pub h: GroupElem,
    pub gs: Vec<GroupElem>,
}

impl CommitKey {
    /// The discrete logarithms of the message generators.
    pub open spec fn gs_vals(&self) -> Seq<int> {
        self.gs@.map(|i: int, g: GroupElem| dlog(g))
    }

    /// The length of vectors this key commits to.
    pub open spec fn spec_len(&self) -> nat {
        self.gs@.len()
    }

    /// The number of message generators.
    pub fn len(&self) -> (r: usize)
        ensures
            r == self.spec_len(),
    {
        self.gs.len()
    }
}

/// The model of a Pedersen commitment: `r * h + sum vs[i] * gs[i]` over the
/// whole vector.
pub open spec fn com(h: int, gs: Seq<int>, vs: Seq<int>, r: int) -> int {
    fadd(fmul(r, h), psum(gs, vs, vs.len()))
}

/// Sample a commit key of the given length: `len + 1` independent uniform
/// generators, the blinder generator first, all taken in order from the
/// generator's point stream.
pub fn setup(rng: &mut Sampler, len: usize) -> (r: CommitKey)
    ensures
        r.spec_len() == len,
        dlog(r.h) == g1_stream_val(old(rng)@, 0),
        forall|i: int|
            0 <= i < len ==> dlog(#[trigger] r.gs@[i]) == g1_stream_val(old(rng)@, (i + 1) as nat),
        final(rng)@ == g1_stream_state(old(rng)@, (len + 1) as nat),
{
    let ghost s0 = rng@;
    let h = g1_rand(rng);
    let mut gs: Vec<GroupElem> = Vec::new();
    let mut i: usize = 0;
    while i < len
        invariant
            i <= len,
            gs@.len() == i,
            dlog(h) == g1_stream_val(s0, 0),
            rng@ == g1_stream_state(s0, (i + 1) as nat),
            forall|j: int|
                0 <= j < i ==> dlog(#[trigger] gs@[j]) == g1_stream_val(s0, (j + 1) as nat),
        decreases len - i,
    {
        gs.push(g1_rand(rng));
        proof {
            assert(g1_stream_state(s0, (i + 2) as nat) == g1_draw_next(
                g1_stream_state(s0, (i + 1) as nat),
            ));
        }
        i = i + 1;
    }
    CommitKey { h, gs }
}

/// Commit to a vector of scalars.  Succeeds exactly when the vector's length
/// equals the key's length; the result is then `r * H + sum v_i * G_i`.
pub fn commit(key: &CommitKey, xs: &Vec<ark_bn254::Fr>, r: &ark_bn254::Fr) -> (res: Result<
    GroupElem,
    CryptoError,
>)
    ensures
        xs@.len() == key.spec_len() ==> (res matches Ok(c) && dlog(c) == com(
            dlog(key.h),
            key.gs_vals(),
            xs@.map(|i: int, x: ark_bn254::Fr| fr_val(x)),
            fr_val(*r),
        )),
        xs@.len() != key.spec_len() ==> (res matches Err(e) && e
            == CryptoError::InvalidVectorLength),
{
    if xs.len() != key.gs.len() {
        return Err(CryptoError::InvalidVectorLength);
    }
    let ghost gvals = key.gs_vals();
    let ghost vvals = xs@.map(|i: int, x: ark_bn254::Fr| fr_val(x));
    let mut acc = g1_mul(r, &key.h);
    proof {
        crate::zq::lemma_fadd_zero(dlog(acc));
    }
    let mut i: usize = 0;
    while i < xs.len()
        invariant
            i <= xs@.len(),
            xs@.len() == key.gs@.len(),
            gvals == key.gs_vals(),
            vvals == xs@.map(|j: int, x: ark_bn254::Fr| fr_val(x)),
            dlog(acc) == fadd(fmul(fr_val(*r), dlog(key.h)), psum(gvals, vvals, i as nat)),
        decreases xs@.len() - i,
    {
        let term = g1_mul(&xs[i], &key.gs[i]);
        let next = g1_add(&acc, &term);
        proof {
            lemma_psum_step(gvals, vvals, (i + 1) as nat);
            lemma_fadd_assoc(
                fmul(fr_val(*r), dlog(key.h)),
                psum(gvals, vvals, i as nat),
                fmul(vvals[i as int], gvals[i as int]),
            );
        }
        acc = next;
        i = i + 1;
    }
    Ok(acc)
}

/// The commitment is homomorphic: committing to the sum of two vectors under
/// the sum of the blinders gives the sum of the commitments.
pub proof fn lemma_commit_homomorphic(
    h: int,
    gs: Seq<int>,
    us: Seq<int>,
    vs: Seq<int>,
    ws: Seq<int>,
    r1: int,
    r2: int,
)
    requires
        us.len() == vs.len(),
        ws.len() == us.len(),
        forall|i: int| 0 <= i < ws.len() ==> ws[i] == fadd(us[i], vs[i]),
    ensures
        com(h, gs, ws, fadd(r1, r2)) == fadd(com(h, gs, us, r1), com(h, gs, vs, r2)),
{
    crate::zq::lemma_q_pos();
    crate::algebra::lemma_psum_add(gs, us, vs, ws, ws.len());
    let pu = psum(gs, us, us.len());
    let pv = psum(gs, vs, vs.len());
    let mu = fmul(r1, h);
    let mv = fmul(r2, h);
    assert(fmul(fadd(r1, r2), h) == fadd(mu, mv)) by {
        crate::zq::lemma_fmul_mod_noop(r1 + r2, h);
        vstd::arithmetic::mul::lemma_mul_is_distributive_add_other_way(h, r1, r2);
        vstd::arithmetic::div_mod::lemma_add_mod_noop(r1 * h, r2 * h, crate::zq::q());
    }
    assert(fadd(fadd(mu, mv), fadd(pu, pv)) == fadd(fadd(mu, pu), fadd(mv, pv))) by {
        lemma_fadd_assoc(fadd(mu, mv), pu, pv);
        lemma_fadd_assoc(mu, mv, pu);
        assert(fadd(mv, pu) == fadd(pu, mv));
        lemma_fadd_assoc(mu, pu, mv);
        lemma_fadd_assoc(fadd(mu, pu), mv, pv);
    }
}

/// The commitment is linear: committing to `x * u + v` element-wise under
/// the blinder `x * r1 + r2` gives `x` times the first commitment plus the
/// second.
pub proof fn lemma_commit_linear(
    h: int,
    gs: Seq<int>,
    us: Seq<int>,
    vs: Seq<int>,
    ws: Seq<int>,
    r1: int,
    r2: int,
    x: int,
)
    requires
        us.len() == vs.len(),
        ws.len() == us.len(),
        forall|i: int| 0 <= i < ws.len() ==> ws[i] == fadd(fmul(x, us[i]), vs[i]),
    ensures
        com(h, gs, ws, fadd(fmul(x, r1), r2)) == fadd(fmul(x, com(h, gs, us, r1)), com(h, gs, vs, r2)),
{
    crate::zq::lemma_q_pos();
    let n = ws.len();
    let su = Seq::new(n, |i: int| fmul(x, us[i]));
    crate::algebra::lemma_psum_scale(gs, us, su, x, n);
    crate::algebra::lemma_psum_add(gs, su, vs, ws, n);
    let pu = psum(gs, us, n);
    let pv = psum(gs, vs, n);
    let mu = fmul(r1, h);
    let mv = fmul(r2, h);
    assert(fmul(fadd(fmul(x, r1), r2), h) == fadd(fmul(x, mu), mv)) by {
        crate::zq::lemma_fmul_mod_noop(x * r1 + r2, h);
        crate::zq::lemma_fadd_mod_noop(x * r1, r2);
        vstd::arithmetic::mul::lemma_mul_is_distributive_add_other_way(h, x * r1, r2);
        vstd::arithmetic::div_mod::lemma_add_mod_noop(
            (x * r1) * h,
            r2 * h,
            crate::zq::q(),
        );
        assert(fmul(x, mu) == ((x * r1) * h) % crate::zq::q()) by {
            crate::zq::lemma_fmul_mod_noop(x, r1 * h);
            vstd::arithmetic::mul::lemma_mul_is_associative(x, r1, h);
        }
    }
    assert(fmul(x, com(h, gs, us, r1)) == fadd(fmul(x, mu), fmul(x, pu))) by {
        crate::zq::lemma_fmul_distrib(x, mu, pu);
    }
    crate::zq::lemma_fadd_rearrange(fmul(x, mu), mv, fmul(x, pu), pv);
}

} // verus!
