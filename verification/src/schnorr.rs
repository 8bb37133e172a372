//! Schnorr key-ownership proof.
//!
//! Proves knowledge of the discrete logarithm of a public key with respect
//! to the scheme generator, bound to a byte-string label through the
//! transcript seed: the transcript is seeded with the label and absorbs the
//! generator, the public key and the announcement before the challenge is
//! drawn.

use vstd::prelude::*;

use crate::error::{is_stage_err, stage_error, CryptoError};
use crate::group::{
    dlog, fr_add, fr_draw, fr_draw_next, fr_mul, fr_rand, fr_val, g1_add, g1_eq, g1_mul,
    rng_state, ser_g1, GroupElem, Sampler,
};
use crate::transcript::{chal_at, Transcript};
use crate::zq::{fadd, fmul, lemma_fadd_mod_noop, lemma_fmul_mod_noop, q};

verus! {

/// A Schnorr proof: the announcement `k * G1` and the response `k + c * sk`.
pub struct Proof {
    pub announcement: GroupElem,
    pub response: ark_bn254::Fr,
}

/// The challenge of the key-ownership protocol: drawn after seeding the
/// transcript with the label and absorbing the generator, the public key and
/// the announcement.
pub open spec fn schnorr_challenge(label: Seq<u8>, gen: int, pk: int, a: int) -> int {
    chal_at(seq![label, ser_g1(gen), ser_g1(pk), ser_g1(a)], 0)
}

/// Whether a proof passes the Schnorr check `s * G1 == A + c * pk` for the
/// given statement, over discrete logarithms.
pub open spec fn schnorr_accepts(label: Seq<u8>, gen: int, pk: int, a: int, s: int) -> bool {
    fmul(s, gen) == fadd(a, fmul(schnorr_challenge(label, gen, pk, a), pk))
}

/// Prove knowledge of `sk` with `pk == sk * gen`, bound to the label.
pub fn prove(
    rng: &mut Sampler,
    gen: &GroupElem,
    pk: &GroupElem,
    sk: &ark_bn254::Fr,
    label: &Vec<u8>,
) -> (r: Proof)
    ensures
        dlog(r.announcement) == fmul(fr_draw(old(rng)@), dlog(*gen)),
        fr_val(r.response) == fadd(
            fr_draw(old(rng)@),
            fmul(
                schnorr_challenge(label@, dlog(*gen), dlog(*pk), dlog(r.announcement)),
                fr_val(*sk),
            ),
        ),
        rng_state(final(rng).inner) == fr_draw_next(old(rng)@),
{
    let k = fr_rand(rng);
    let announcement = g1_mul(&k, gen);
    let mut t = Transcript::new(label);
    t.absorb_point(gen);
    t.absorb_point(pk);
    t.absorb_point(&announcement);
    proof {
        assert(t.hist() =~= seq![
            label@,
            ser_g1(dlog(*gen)),
            ser_g1(dlog(*pk)),
            ser_g1(dlog(announcement)),
        ]);
    }
    let c = t.challenge();
    let response = fr_add(&k, &fr_mul(&c, sk));
    Proof { announcement, response }
}

/// Verify a key-ownership proof.  Accepts exactly when the Schnorr check
/// holds for the statement and the proof.
pub fn verify(gen: &GroupElem, pk: &GroupElem, label: &Vec<u8>, proof: &Proof) -> (r: Result<
    (),
    CryptoError,
>)
    ensures
        r is Ok <==> schnorr_accepts(
            label@,
            dlog(*gen),
            dlog(*pk),
            dlog(proof.announcement),
            fr_val(proof.response),
        ),
        r is Err ==> is_stage_err(r, "Schnorr"@),
{
    let mut t = Transcript::new(label);
    t.absorb_point(gen);
    t.absorb_point(pk);
    t.absorb_point(&proof.announcement);
    proof {
        assert(t.hist() =~= seq![
            label@,
            ser_g1(dlog(*gen)),
            ser_g1(dlog(*pk)),
            ser_g1(dlog(proof.announcement)),
        ]);
    }
    let c = t.challenge();
    let lhs = g1_mul(&proof.response, gen);
    let rhs = g1_add(&proof.announcement, &g1_mul(&c, pk));
    if g1_eq(&lhs, &rhs) {
        Ok(())
    } else {
        Err(stage_error("Schnorr"))
    }
}

/// Completeness of the Schnorr protocol: the honest response passes the
/// check, because `(k + c * sk) * gen == k * gen + c * (sk * gen)`.
pub proof fn lemma_schnorr_completeness(label: Seq<u8>, gen: int, sk: int, k: int)
    ensures
        schnorr_accepts(
            label,
            gen,
            fmul(sk, gen),
            fmul(k, gen),
            fadd(k, fmul(schnorr_challenge(label, gen, fmul(sk, gen), fmul(k, gen)), sk)),
        ),
{
    let pk = fmul(sk, gen);
    let a = fmul(k, gen);
    let c = schnorr_challenge(label, gen, pk, a);
    let s = fadd(k, fmul(c, sk));
    assert(fmul(s, gen) == ((k + (c * sk) % q()) * gen) % q()) by {
        lemma_fmul_mod_noop(k + (c * sk) % q(), gen);
    }
    assert(((k + (c * sk) % q()) * gen) % q() == ((k + c * sk) * gen) % q()) by {
        lemma_fmul_mod_noop(k + (c * sk) % q(), gen);
        lemma_fmul_mod_noop(k + c * sk, gen);
        vstd::arithmetic::div_mod::lemma_add_mod_noop_right(k, c * sk, q());
        lemma_fmul_mod_noop((k + (c * sk) % q()) % q(), gen);
        lemma_fmul_mod_noop((k + c * sk) % q(), gen);
    }
    assert(((k + c * sk) * gen) % q() == (k * gen + (c * sk) * gen) % q()) by {
        vstd::arithmetic::mul::lemma_mul_is_distributive_add_other_way(gen, k, c * sk);
    }
    assert(fadd(a, fmul(c, pk)) == (k * gen + (c * sk) * gen) % q()) by {
        assert(fmul(c, pk) == (c * (sk * gen)) % q()) by {
            lemma_fmul_mod_noop(c, sk * gen);
        }
        assert(c * (sk * gen) == (c * sk) * gen) by {
            vstd::arithmetic::mul::lemma_mul_is_associative(c, sk, gen);
        }
        lemma_fadd_mod_noop(k * gen, (c * sk) * gen);
    }
}

} // verus!
