//! Chaum-Pedersen proof of discrete-logarithm equality.
//!
//! Proves that two points share the same discrete logarithm with respect to
//! two bases: given bases `U`, `V` and points `X`, `Y`, knowledge of `w`
//! with `X == w * U` and `Y == w * V`.  Used for remasking proofs (the same
//! blinding scalar under the generator and the joint key) and for
//! reveal-token proofs.

use vstd::prelude::*;

use crate::error::{is_stage_err, stage_error, CryptoError};
use crate::group::{
    dlog, fr_add, fr_draw, fr_draw_next, fr_mul, fr_rand, fr_val, g1_add, g1_eq, g1_mul,
    rng_state, ser_g1, GroupElem, Sampler,
};
use crate::transcript::{chal_at, Transcript};
use crate::zq::{fadd, fmul, q};

verus! {

/// A Chaum-Pedersen proof: announcements `k * U`, `k * V` and the response
/// `k + c * w`.
pub struct Proof {
    pub a1: GroupElem,
    pub a2: GroupElem,
    pub response: ark_bn254::Fr,
}

/// The challenge: drawn after seeding the transcript with the first base and
/// absorbing the second base, both statement points and both announcements.
pub open spec fn cp_challenge(u: int, v: int, x: int, y: int, a1: int, a2: int) -> int {
    chal_at(seq![ser_g1(u), ser_g1(v), ser_g1(x), ser_g1(y), ser_g1(a1), ser_g1(a2)], 0)
}

/// Whether a proof passes the two Chaum-Pedersen checks
/// `s * U == A1 + c * X` and `s * V == A2 + c * Y`.
pub open spec fn cp_accepts(u: int, v: int, x: int, y: int, a1: int, a2: int, s: int) -> bool {
    let c = cp_challenge(u, v, x, y, a1, a2);
    fmul(s, u) == fadd(a1, fmul(c, x)) && fmul(s, v) == fadd(a2, fmul(c, y))
}

/// Prove that `x == w * u` and `y == w * v` for a known witness `w`.
pub fn prove(
    rng: &mut Sampler,
    u: &GroupElem,
    v: &GroupElem,
    x: &GroupElem,
    y: &GroupElem,
    w: &ark_bn254::Fr,
) -> (r: Proof)
    ensures
        dlog(r.a1) == fmul(fr_draw(old(rng)@), dlog(*u)),
        dlog(r.a2) == fmul(fr_draw(old(rng)@), dlog(*v)),
        fr_val(r.response) == fadd(
            fr_draw(old(rng)@),
            fmul(
                cp_challenge(dlog(*u), dlog(*v), dlog(*x), dlog(*y), dlog(r.a1), dlog(r.a2)),
                fr_val(*w),
            ),
        ),
        rng_state(final(rng).inner) == fr_draw_next(old(rng)@),
{
    let k = fr_rand(rng);
    let a1 = g1_mul(&k, u);
    let a2 = g1_mul(&k, v);
    let ubytes = crate::group::g1_to_bytes(u);
    let mut t = Transcript::new(&ubytes);
    t.absorb_point(v);
    t.absorb_point(x);
    t.absorb_point(y);
    t.absorb_point(&a1);
    t.absorb_point(&a2);
    proof {
        assert(t.hist() =~= seq![
            ser_g1(dlog(*u)),
            ser_g1(dlog(*v)),
            ser_g1(dlog(*x)),
            ser_g1(dlog(*y)),
            ser_g1(dlog(a1)),
            ser_g1(dlog(a2)),
        ]);
    }
    let c = t.challenge();
    let response = fr_add(&k, &fr_mul(&c, w));
    Proof { a1, a2, response }
}

/// Verify a discrete-logarithm-equality proof.  Accepts exactly when both
/// Chaum-Pedersen checks hold.
pub fn verify(u: &GroupElem, v: &GroupElem, x: &GroupElem, y: &GroupElem, proof: &Proof) -> (r:
    Result<(), CryptoError>)
    ensures
        r is Ok <==> cp_accepts(
            dlog(*u),
            dlog(*v),
            dlog(*x),
            dlog(*y),
            dlog(proof.a1),
            dlog(proof.a2),
            fr_val(proof.response),
        ),
        r is Err ==> is_stage_err(r, "Chaum-Pedersen"@),
{
    let ubytes = crate::group::g1_to_bytes(u);
    let mut t = Transcript::new(&ubytes);
    t.absorb_point(v);
    t.absorb_point(x);
    t.absorb_point(y);
    t.absorb_point(&proof.a1);
    t.absorb_point(&proof.a2);
    proof {
        assert(t.hist() =~= seq![
            ser_g1(dlog(*u)),
            ser_g1(dlog(*v)),
            ser_g1(dlog(*x)),
            ser_g1(dlog(*y)),
            ser_g1(dlog(proof.a1)),
            ser_g1(dlog(proof.a2)),
        ]);
    }
    let c = t.challenge();
    let lhs1 = g1_mul(&proof.response, u);
    let rhs1 = g1_add(&proof.a1, &g1_mul(&c, x));
    let lhs2 = g1_mul(&proof.response, v);
    let rhs2 = g1_add(&proof.a2, &g1_mul(&c, y));
    let ok1 = g1_eq(&lhs1, &rhs1);
    let ok2 = g1_eq(&lhs2, &rhs2);
    if ok1 && ok2 {
        Ok(())
    } else {
        Err(stage_error("Chaum-Pedersen"))
    }
}

/// Completeness of one Chaum-Pedersen check: the honest response `k + c * w`
/// satisfies `s * base == k * base + c * (w * base)` for any base.
pub proof fn lemma_cp_check(base: int, w: int, k: int, c: int)
    ensures
        fmul(fadd(k, fmul(c, w)), base) == fadd(fmul(k, base), fmul(c, fmul(w, base))),
{
    let s = fadd(k, fmul(c, w));
    assert(fmul(s, base) == ((k + c * w) * base) % q()) by {
        crate::zq::lemma_fmul_mod_noop(k + (c * w) % q(), base);
        crate::zq::lemma_fmul_mod_noop(k + c * w, base);
        vstd::arithmetic::div_mod::lemma_add_mod_noop_right(k, c * w, q());
        crate::zq::lemma_fmul_mod_noop((k + (c * w) % q()) % q(), base);
        crate::zq::lemma_fmul_mod_noop((k + c * w) % q(), base);
    }
    assert(((k + c * w) * base) % q() == (k * base + (c * w) * base) % q()) by {
        vstd::arithmetic::mul::lemma_mul_is_distributive_add_other_way(base, k, c * w);
    }
    assert(fadd(fmul(k, base), fmul(c, fmul(w, base))) == (k * base + (c * w) * base) % q()) by {
        assert(fmul(c, fmul(w, base)) == (c * (w * base)) % q()) by {
            crate::zq::lemma_fmul_mod_noop(c, w * base);
        }
        assert(c * (w * base) == (c * w) * base) by {
            vstd::arithmetic::mul::lemma_mul_is_associative(c, w, base);
        }
        crate::zq::lemma_fadd_mod_noop(k * base, (c * w) * base);
    }
}

/// Completeness of the whole protocol: for the honest witness the verifier
/// accepts.
pub proof fn lemma_cp_completeness(u: int, v: int, w: int, k: int)
    ensures
        cp_accepts(
            u,
            v,
            fmul(w, u),
            fmul(w, v),
            fmul(k, u),
            fmul(k, v),
            fadd(k, fmul(cp_challenge(u, v, fmul(w, u), fmul(w, v), fmul(k, u), fmul(k, v)), w)),
        ),
{
    let c = cp_challenge(u, v, fmul(w, u), fmul(w, v), fmul(k, u), fmul(k, v));
    lemma_cp_check(u, w, k, c);
    lemma_cp_check(v, w, k, c);
}

} // verus!
