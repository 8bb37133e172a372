//! The Fiat-Shamir public-coin transcript.
//!
//! The transcript is the hash-based oracle that makes the sigma protocols
//! non-interactive: both prover and verifier absorb the identical sequence
//! of protocol messages and draw the identical challenge scalars.  The hash
//! state itself lives in ark_marlin's seeded generator; the contracts model
//! a transcript value by the sequence of byte strings absorbed so far
//! together with the number of challenges drawn since the last absorption,
//! and every challenge is a function of exactly that pair.

use vstd::prelude::*;

use crate::elgamal::Ciphertext;
use crate::group::{dlog, fr_to_bytes, fr_val, g1_to_bytes, ser_fr, ser_g1, GroupElem};
use crate::zq::in_f;
use ark_ff::UniformRand;

verus! {

/// The sequence of byte strings absorbed into a transcript, the seed first.
pub uninterp spec fn ts_hist(t: Transcript) -> Seq<Seq<u8>>;

/// The number of challenges drawn from a transcript since it was seeded or
/// last absorbed.
pub uninterp spec fn ts_draws(t: Transcript) -> nat;

/// The scalar that ark_ff::UniformRand::rand for Fr draws from the
/// Fiat-Shamir generator whose absorbed history and draw count are given: a
/// deterministic function of both.
pub uninterp spec fn chal_at(hist: Seq<Seq<u8>>, draws: nat) -> int;

/// The concatenation of the serializations of the first `k` points.
pub open spec fn ser_points_prefix(ds: Seq<int>, k: nat) -> Seq<u8>
    decreases k,
{
    if k == 0 {
        Seq::empty()
    } else {
        ser_points_prefix(ds, (k - 1) as nat) + ser_g1(ds[k - 1])
    }
}

/// The concatenation of the serializations of a point sequence.
pub open spec fn ser_points(ds: Seq<int>) -> Seq<u8> {
    ser_points_prefix(ds, ds.len())
}

/// The serialization of a ciphertext: both components, in order.
pub open spec fn ser_cipher(c: (int, int)) -> Seq<u8> {
    ser_g1(c.0) + ser_g1(c.1)
}

/// The concatenation of the serializations of the first `k` ciphertexts.
pub open spec fn ser_ciphers_prefix(cs: Seq<(int, int)>, k: nat) -> Seq<u8>
    decreases k,
{
    if k == 0 {
        Seq::empty()
    } else {
        ser_ciphers_prefix(cs, (k - 1) as nat) + ser_cipher(cs[k - 1])
    }
}

/// The concatenation of the serializations of a ciphertext sequence.
pub open spec fn ser_ciphers(cs: Seq<(int, int)>) -> Seq<u8> {
    ser_ciphers_prefix(cs, cs.len())
}

/// A public-coin transcript: absorb canonical byte strings, squeeze
/// challenge scalars.  Deterministic given the seed and the absorption
/// sequence.  The hash state is held opaquely: Verus refuses the declaration
/// of the underlying generic type because its own generics carry an outside
/// trait bound, so contracts see a transcript only through [`ts_hist`] and
/// [`ts_draws`].
#[verifier::external_body]
pub struct Transcript {
    inner: ark_marlin::rng::FiatShamirRng<blake2::Blake2s>,
}

impl Transcript {
    /// The model of a transcript value: what was absorbed, in order.
    pub open spec fn hist(&self) -> Seq<Seq<u8>> {
        ts_hist(*self)
    }

    /// How many challenges were drawn since the last absorption.
    pub open spec fn draws(&self) -> nat {
        ts_draws(*self)
    }

    /// Relies on ark_marlin::rng::FiatShamirRng::from_seed: the fresh state
    /// is a deterministic function of the seed bytes.
    #[verifier::external_body]
    pub fn new(seed: &Vec<u8>) -> (r: Transcript)
        ensures
            ts_hist(r) =~= seq![seed@],
            ts_draws(r) == 0,
    {
        Transcript { inner: ark_marlin::rng::FiatShamirRng::from_seed(seed) }
    }

    /// Relies on ark_marlin::rng::FiatShamirRng::absorb: the new state is a
    /// deterministic function of the old absorbed history and the new bytes,
    /// and the draw counter restarts because the inner generator is
    /// reseeded.
    #[verifier::external_body]
    pub fn absorb_bytes(&mut self, bytes: &Vec<u8>)
        ensures
            ts_hist(*final(self)) =~= ts_hist(*old(self)).push(bytes@),
            ts_draws(*final(self)) == 0,
    {
        self.inner.absorb(bytes);
    }

    /// Relies on ark_ff::UniformRand::rand for Fr over the Fiat-Shamir
    /// generator: the challenge is a deterministic function of the absorbed
    /// history and the number of draws so far, and advancing the generator
    /// only increases the draw count.
    #[verifier::external_body]
    pub fn challenge(&mut self) -> (r: ark_bn254::Fr)
        ensures
            fr_val(r) == chal_at(ts_hist(*old(self)), ts_draws(*old(self))),
            in_f(fr_val(r)),
            ts_hist(*final(self)) =~= ts_hist(*old(self)),
            ts_draws(*final(self)) == ts_draws(*old(self)) + 1,
    {
        let r = ark_bn254::Fr::rand(&mut self.inner);
        r
    }

    /// Absorb the canonical serialization of a scalar.
    pub fn absorb_scalar(&mut self, s: &ark_bn254::Fr)
        ensures
            final(self).hist() =~= old(self).hist().push(ser_fr(fr_val(*s))),
            final(self).draws() == 0,
    {
        let bytes = fr_to_bytes(s);
        self.absorb_bytes(&bytes);
    }

    /// Absorb one message holding the serializations of a list of group
    /// elements, in order.
    pub fn absorb_points(&mut self, ps: &Vec<GroupElem>)
        ensures
            final(self).hist() =~= old(self).hist().push(
                ser_points(crate::matrix::pts(ps@)),
            ),
            final(self).draws() == 0,
    {
        let ghost ds = crate::matrix::pts(ps@);
        let mut buf: Vec<u8> = Vec::new();
        let mut i: usize = 0;
        while i < ps.len()
            invariant
                i <= ps@.len(),
                ds == crate::matrix::pts(ps@),
                buf@ == ser_points_prefix(ds, i as nat),
            decreases ps@.len() - i,
        {
            let mut piece = g1_to_bytes(&ps[i]);
            buf.append(&mut piece);
            i = i + 1;
        }
        self.absorb_bytes(&buf);
    }

    /// Absorb one message holding the serializations of a list of
    /// ciphertexts, in order.
    pub fn absorb_ciphertexts(&mut self, cs: &Vec<Ciphertext>)
        ensures
            final(self).hist() =~= old(self).hist().push(
                ser_ciphers(crate::matrix::cvs(cs@)),
            ),
            final(self).draws() == 0,
    {
        let ghost ds = crate::matrix::cvs(cs@);
        let mut buf: Vec<u8> = Vec::new();
        let mut i: usize = 0;
        while i < cs.len()
            invariant
                i <= cs@.len(),
                ds == crate::matrix::cvs(cs@),
                buf@ == ser_ciphers_prefix(ds, i as nat),
            decreases cs@.len() - i,
        {
            let mut piece = g1_to_bytes(&cs[i].c1);
            buf.append(&mut piece);
            let mut piece2 = g1_to_bytes(&cs[i].c2);
            buf.append(&mut piece2);
            i = i + 1;
        }
        self.absorb_bytes(&buf);
    }

    /// Absorb one message holding the serialization of a single ciphertext.
    pub fn absorb_ciphertext(&mut self, c: &Ciphertext)
        ensures
            final(self).hist() =~= old(self).hist().push(ser_cipher(c@)),
            final(self).draws() == 0,
    {
        let mut buf = g1_to_bytes(&c.c1);
        let mut second = g1_to_bytes(&c.c2);
        buf.append(&mut second);
        self.absorb_bytes(&buf);
    }

    /// Absorb the canonical serialization of a group element.
    pub fn absorb_point(&mut self, p: &GroupElem)
        ensures
            final(self).hist() =~= old(self).hist().push(ser_g1(dlog(*p))),
            final(self).draws() == 0,
    {
        let bytes = g1_to_bytes(p);
        self.absorb_bytes(&bytes);
    }
}

} // verus!
