//! Additively homomorphic ElGamal encryption over the group.
//!
//! A ciphertext of a plaintext group element `m` under public key `pk` with
//! blinding scalar `r` is the pair `(r * G1, m + r * pk)` where `G1` is the
//! scheme's independent generator.  Ciphertexts add component-wise and can
//! be multiplied by a scalar, and both operations commute with decryption.

use vstd::prelude::*;

use crate::group::{
    dlog, fr_rand, fr_val, g1_add, g1_copy, g1_mul, g1_neg, g1_rand, g1_zero, fr_draw,
    fr_draw_next, g1_draw, g1_draw_next, g1_eq, rng_state, GroupElem, Sampler,
};
use crate::zq::{
    fadd, fmul, fsub, in_f, lemma_fadd_fsub_cancel, lemma_fadd_mod_noop, lemma_fmul_assoc,
    lemma_fmul_comm, lemma_fmul_mod_noop, lemma_fsub_mod_noop, q,
};

verus! {

/// ElGamal public parameters: one independent uniformly random generator.
pub struct Parameters {
    pub generator: GroupElem,
}

/// An ElGamal ciphertext.
pub struct Ciphertext {
    pub c1: GroupElem,
    pub c2: GroupElem,
}

impl View for Ciphertext {
    type V = (int, int);

    open spec fn view(&self) -> (int, int) {
        (dlog(self.c1), dlog(self.c2))
    }
}

/// The model of encryption: `(r * gen, msg + r * pk)` on discrete
/// logarithms.
pub open spec fn enc(gen: int, pk: int, msg: int, r: int) -> (int, int) {
    (fmul(r, gen), fadd(msg, fmul(r, pk)))
}

/// The model of decryption: `c2 - sk * c1`.
pub open spec fn dec(sk: int, c: (int, int)) -> int {
    fsub(c.1, fmul(sk, c.0))
}

/// Component-wise ciphertext addition.
pub open spec fn cadd(a: (int, int), b: (int, int)) -> (int, int) {
    (fadd(a.0, b.0), fadd(a.1, b.1))
}

/// Scalar multiplication of a ciphertext.
pub open spec fn cmul(s: int, a: (int, int)) -> (int, int) {
    (fmul(s, a.0), fmul(s, a.1))
}

impl Ciphertext {
    /// The identity ciphertext `(0, 0)`.
    pub fn zero() -> (r: Ciphertext)
        ensures
            r@ == ((0int, 0int)),
    {
        Ciphertext { c1: g1_zero(), c2: g1_zero() }
    }

    /// A copy of the ciphertext.
    pub fn dup(&self) -> (r: Ciphertext)
        ensures
            r == *self,
            r@ == self@,
    {
        Ciphertext { c1: g1_copy(&self.c1), c2: g1_copy(&self.c2) }
    }

    /// Component-wise homomorphic addition.
    pub fn add_cipher(&self, other: &Ciphertext) -> (r: Ciphertext)
        ensures
            r@ == cadd(self@, other@),
    {
        Ciphertext { c1: g1_add(&self.c1, &other.c1), c2: g1_add(&self.c2, &other.c2) }
    }

    /// Component-wise scalar multiplication.
    pub fn scale(&self, s: &ark_bn254::Fr) -> (r: Ciphertext)
        ensures
            r@ == cmul(fr_val(*s), self@),
    {
        Ciphertext { c1: g1_mul(s, &self.c1), c2: g1_mul(s, &self.c2) }
    }

    /// Component-wise negation.
    pub fn neg_cipher(&self) -> (r: Ciphertext)
        ensures
            r@ == ((crate::zq::fneg(self@.0), crate::zq::fneg(self@.1))),
    {
        Ciphertext { c1: g1_neg(&self.c1), c2: g1_neg(&self.c2) }
    }

    /// Equality of the represented pairs of group elements.
    pub fn eq_cipher(&self, other: &Ciphertext) -> (r: bool)
        ensures
            r <==> self@ == other@,
    {
        let first = g1_eq(&self.c1, &other.c1);
        let second = g1_eq(&self.c2, &other.c2);
        first && second
    }
}

/// Sample the scheme's parameters: one uniformly random generator.
pub fn setup(rng: &mut Sampler) -> (r: Parameters)
    ensures
        dlog(r.generator) == g1_draw(old(rng)@),
        in_f(dlog(r.generator)),
        rng_state(final(rng).inner) == g1_draw_next(old(rng)@),
{
    Parameters { generator: g1_rand(rng) }
}

/// Sample a key pair: a uniform secret scalar and its public key
/// `sk * generator`.
pub fn keygen(pp: &Parameters, rng: &mut Sampler) -> (r: (GroupElem, ark_bn254::Fr))
    ensures
        fr_val(r.1) == fr_draw(old(rng)@),
        in_f(fr_val(r.1)),
        dlog(r.0) == fmul(fr_val(r.1), dlog(pp.generator)),
        rng_state(final(rng).inner) == fr_draw_next(old(rng)@),
{
    let sk = fr_rand(rng);
    let pk = g1_mul(&sk, &pp.generator);
    (pk, sk)
}

/// Encrypt a plaintext group element under a public key with the given
/// blinding scalar.
pub fn encrypt(pp: &Parameters, pk: &GroupElem, msg: &GroupElem, r: &ark_bn254::Fr) -> (c:
    Ciphertext)
    ensures
        c@ == enc(dlog(pp.generator), dlog(*pk), dlog(*msg), fr_val(*r)),
{
    Ciphertext { c1: g1_mul(r, &pp.generator), c2: g1_add(msg, &g1_mul(r, pk)) }
}

/// Decrypt a ciphertext with the secret key.
pub fn decrypt(pp: &Parameters, sk: &ark_bn254::Fr, c: &Ciphertext) -> (m: GroupElem)
    ensures
        dlog(m) == dec(fr_val(*sk), c@),
{
    let mask = g1_mul(sk, &c.c1);
    let r = g1_add(&c.c2, &g1_neg(&mask));
    proof {
        crate::zq::lemma_fadd_fneg(dlog(c.c2), fmul(fr_val(*sk), dlog(c.c1)));
    }
    r
}

/// Decryption undoes encryption: for every key pair from keygen, every
/// plaintext and every blinding scalar, decrypting an encryption returns
/// the plaintext.
pub proof fn lemma_encrypt_then_decrypt(gen: int, sk: int, msg: int, r: int)
    requires
        in_f(msg),
    ensures
        dec(sk, enc(gen, fmul(sk, gen), msg, r)) == msg,
{
    let pk = fmul(sk, gen);
    assert(fmul(r, pk) == fmul(sk, fmul(r, gen))) by {
        lemma_fmul_assoc(r, sk, gen);
        lemma_fmul_comm(r, sk);
        lemma_fmul_assoc(sk, r, gen);
    }
    lemma_fadd_fsub_cancel(msg, fmul(r, pk));
}

/// Decryption is additively homomorphic.
pub proof fn lemma_decrypt_additive(sk: int, c: (int, int), d: (int, int))
    ensures
        dec(sk, cadd(c, d)) == fadd(dec(sk, c), dec(sk, d)),
{
    crate::zq::lemma_q_pos();
    assert(fmul(sk, fadd(c.0, d.0)) == (sk * (c.0 + d.0)) % q()) by {
        lemma_fmul_mod_noop(sk, c.0 + d.0);
    }
    assert(dec(sk, cadd(c, d)) == (c.1 + d.1 - sk * (c.0 + d.0)) % q()) by {
        lemma_fsub_mod_noop(c.1 + d.1, sk * (c.0 + d.0));
        lemma_fsub_mod_noop(c.1 + d.1, (sk * (c.0 + d.0)) % q());
    }
    assert(dec(sk, c) == (c.1 - sk * c.0) % q()) by {
        lemma_fsub_mod_noop(c.1, sk * c.0);
    }
    assert(dec(sk, d) == (d.1 - sk * d.0) % q()) by {
        lemma_fsub_mod_noop(d.1, sk * d.0);
    }
    assert(fadd((c.1 - sk * c.0) % q(), (d.1 - sk * d.0) % q()) == (c.1 - sk * c.0 + d.1 - sk
        * d.0) % q()) by {
        lemma_fadd_mod_noop(c.1 - sk * c.0, (d.1 - sk * d.0) % q());
        lemma_fadd_mod_noop(c.1 - sk * c.0, d.1 - sk * d.0);
    }
    assert(c.1 + d.1 - sk * (c.0 + d.0) == c.1 - sk * c.0 + d.1 - sk * d.0) by {
        vstd::arithmetic::mul::lemma_mul_is_distributive_add(sk, c.0, d.0);
    }
}

/// Decryption commutes with scalar multiplication.
pub proof fn lemma_decrypt_scalar(sk: int, s: int, c: (int, int))
    ensures
        dec(sk, cmul(s, c)) == fmul(s, dec(sk, c)),
{
    crate::zq::lemma_q_pos();
    assert(fmul(sk, fmul(s, c.0)) == (sk * (s * c.0)) % q()) by {
        lemma_fmul_mod_noop(sk, s * c.0);
    }
    assert(dec(sk, cmul(s, c)) == (s * c.1 - sk * (s * c.0)) % q()) by {
        lemma_fmul_mod_noop(s, c.1);
        lemma_fsub_mod_noop(s * c.1, sk * (s * c.0));
        lemma_fsub_mod_noop(s * c.1, (sk * (s * c.0)) % q());
    }
    assert(fmul(s, dec(sk, c)) == (s * (c.1 - sk * c.0)) % q()) by {
        lemma_fsub_mod_noop(c.1, sk * c.0);
        lemma_fmul_mod_noop(s, c.1 - sk * c.0);
    }
    assert(s * c.1 - sk * (s * c.0) == s * (c.1 - sk * c.0)) by {
        vstd::arithmetic::mul::lemma_mul_is_distributive_sub(s, c.1, sk * c.0);
        vstd::arithmetic::mul::lemma_mul_is_associative(sk, s, c.0);
        vstd::arithmetic::mul::lemma_mul_is_associative(s, sk, c.0);
        vstd::arithmetic::mul::lemma_mul_is_commutative(sk, s);
    }
}

/// Remasking preserves the plaintext: adding an encryption of the identity
/// yields a ciphertext of the same plaintext under the combined scalar.
pub proof fn lemma_remask_preserves_plaintext(gen: int, sk: int, c: (int, int), r2: int)
    ensures
        dec(sk, cadd(c, enc(gen, fmul(sk, gen), 0, r2))) == dec(sk, c),
{
    lemma_decrypt_additive(sk, c, enc(gen, fmul(sk, gen), 0, r2));
    lemma_encrypt_then_decrypt(gen, sk, 0, r2);
    crate::zq::lemma_fsub_in_f(c.1, fmul(sk, c.0));
    crate::zq::lemma_fadd_zero(dec(sk, c));
}

} // verus!
