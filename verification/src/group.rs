//! Trusted facade over the arkworks BN254 implementation.
//!
//! The protocol is parametric in a prime-order group with its scalar field;
//! this crate instantiates it with BN254 G1.  Because the group has prime
//! order and cofactor one, it is cyclic: every element is `k * g` for the
//! canonical generator `g` and exactly one `k` below the group order.  The
//! uninterpreted function [`dlog`] names that `k`, and [`fr_val`] names the
//! canonical integer representative of a scalar.  Every wrapper below states
//! what the arkworks operation it calls does to those integers; the rest of
//! the crate is verified against these contracts.

use vstd::prelude::*;

use crate::zq::{fadd, fmul, fneg, fsub, in_f, q};
use ark_ec::AffineCurve;
use ark_ec::ProjectiveCurve;
use ark_ff::{One, PrimeField, UniformRand, Zero};
use ark_serialize::{CanonicalDeserialize, CanonicalSerialize};
use rand::Rng;
use rand::SeedableRng;

verus! {

/// Declares ark_ff's 256-bit prime-field type, of which ark_bn254::Fr is an
/// instance, as an opaque outside type.
#[verifier::external_type_specification]
#[verifier::external_body]
#[verifier::reject_recursive_types(P)]
pub struct ExFp256<P>(ark_ff::Fp256<P>);

/// Declares the rand crate's standard deterministic generator as an opaque
/// outside type.
#[verifier::external_type_specification]
#[verifier::external_body]
pub struct ExStdRng(rand::rngs::StdRng);

/// Declares the marker type that selects the BN254 scalar-field parameters.
#[verifier::external_type_specification]
#[verifier::external_body]
pub struct ExFrParameters(ark_bn254::FrParameters);

/// A BN254 G1 group element.  The projective point itself is held opaquely:
/// Verus refuses the declaration of the underlying generic type because its
/// own generics carry an outside trait bound, so the crate's contracts see a
/// group element only through [`dlog`].
#[verifier::external_body]
pub struct GroupElem {
    inner: ark_bn254::G1Projective,
}

/// The canonical integer representative of a scalar: the unique integer in
/// `[0, q)` in the residue class that the field element stands for.
pub uninterp spec fn fr_val(a: ark_bn254::Fr) -> int;

/// The discrete logarithm of a group element with respect to the canonical
/// BN254 G1 generator: the unique integer in `[0, q)` with `p == dlog(p) * g`.
/// It exists because the group is cyclic of prime order with cofactor one.
pub uninterp spec fn dlog(p: GroupElem) -> int;

/// The canonical serialization of the scalar whose value is the argument.
pub uninterp spec fn ser_fr(v: int) -> Seq<u8>;

/// The canonical compressed serialization of the group element whose
/// discrete logarithm is the argument.
pub uninterp spec fn ser_g1(d: int) -> Seq<u8>;

/// Relies on ark_ff::Zero::zero for Fr: the additive identity.
#[verifier::external_body]
pub fn fr_zero() -> (r: ark_bn254::Fr)
    ensures
        fr_val(r) == 0,
        in_f(fr_val(r)),
{
    ark_bn254::Fr::zero()
}

/// Relies on ark_ff::One::one for Fr: the multiplicative identity.
#[verifier::external_body]
pub fn fr_one() -> (r: ark_bn254::Fr)
    ensures
        fr_val(r) == 1,
        in_f(fr_val(r)),
{
    ark_bn254::Fr::one()
}

/// Relies on the From<u64> conversion for Fr, which embeds an integer into
/// the field by reduction modulo the field order.
#[verifier::external_body]
pub fn fr_from_u64(x: u64) -> (r: ark_bn254::Fr)
    ensures
        fr_val(r) == (x as int) % q(),
        in_f(fr_val(r)),
{
    ark_bn254::Fr::from(x)
}

/// Relies on field addition for Fr: addition of representatives modulo q.
#[verifier::external_body]
pub fn fr_add(a: &ark_bn254::Fr, b: &ark_bn254::Fr) -> (r: ark_bn254::Fr)
    ensures
        fr_val(r) == fadd(fr_val(*a), fr_val(*b)),
        in_f(fr_val(r)),
{
    *a + *b
}

/// Relies on field subtraction for Fr.
#[verifier::external_body]
pub fn fr_sub(a: &ark_bn254::Fr, b: &ark_bn254::Fr) -> (r: ark_bn254::Fr)
    ensures
        fr_val(r) == fsub(fr_val(*a), fr_val(*b)),
        in_f(fr_val(r)),
{
    *a - *b
}

/// Relies on field multiplication for Fr.
#[verifier::external_body]
pub fn fr_mul(a: &ark_bn254::Fr, b: &ark_bn254::Fr) -> (r: ark_bn254::Fr)
    ensures
        fr_val(r) == fmul(fr_val(*a), fr_val(*b)),
        in_f(fr_val(r)),
{
    *a * *b
}

/// Relies on field negation for Fr.
#[verifier::external_body]
pub fn fr_neg(a: &ark_bn254::Fr) -> (r: ark_bn254::Fr)
    ensures
        fr_val(r) == fneg(fr_val(*a)),
        in_f(fr_val(r)),
{
    -*a
}

/// Relies on the derived equality of Fr, which compares the unique canonical
/// representation, so it decides equality of the represented values.
#[verifier::external_body]
pub fn fr_eq(a: &ark_bn254::Fr, b: &ark_bn254::Fr) -> (r: bool)
    ensures
        r <==> fr_val(*a) == fr_val(*b),
{
    a == b
}

/// Relies on Clone for Fr, which copies the value.
#[verifier::external_body]
pub fn fr_copy(a: &ark_bn254::Fr) -> (r: ark_bn254::Fr)
    ensures
        r == *a,
{
    *a
}

/// Relies on ark_serialize::CanonicalSerialize for Fr: 32 bytes, a function
/// of the value alone.
#[verifier::external_body]
pub fn fr_to_bytes(a: &ark_bn254::Fr) -> (r: Vec<u8>)
    ensures
        r@ == ser_fr(fr_val(*a)),
        r@.len() == 32,
{
    let mut out: Vec<u8> = Vec::new();
    a.serialize(&mut out).expect("writing to a Vec cannot fail");
    out
}

/// Relies on ark_serialize::CanonicalDeserialize for Fr, which reads the
/// first 32 bytes of the buffer and accepts only the canonical encoding of
/// a value below the field order.
#[verifier::external_body]
pub fn fr_from_bytes(bytes: &Vec<u8>) -> (r: Option<ark_bn254::Fr>)
    ensures
        r matches Some(s) ==> in_f(fr_val(s)) && bytes@.len() >= 32 && ser_fr(fr_val(s))
            == bytes@.subrange(0, 32),
{
    match ark_bn254::Fr::deserialize(&bytes[..]) {
        Ok(s) => Some(s),
        Err(_) => None,
    }
}

/// Relies on ark_std::Zero::zero for G1: the group identity.
#[verifier::external_body]
pub fn g1_zero() -> (r: GroupElem)
    ensures
        dlog(r) == 0,
        in_f(dlog(r)),
{
    GroupElem { inner: ark_bn254::G1Projective::zero() }
}

/// Relies on group addition for G1: discrete logarithms add modulo the group
/// order.
#[verifier::external_body]
pub fn g1_add(a: &GroupElem, b: &GroupElem) -> (r: GroupElem)
    ensures
        dlog(r) == fadd(dlog(*a), dlog(*b)),
        in_f(dlog(r)),
{
    GroupElem { inner: a.inner + b.inner }
}

/// Relies on group negation for G1.
#[verifier::external_body]
pub fn g1_neg(a: &GroupElem) -> (r: GroupElem)
    ensures
        dlog(r) == fneg(dlog(*a)),
        in_f(dlog(r)),
{
    GroupElem { inner: -a.inner }
}

/// Relies on ark_ec::ProjectiveCurve::mul for G1, applied to the canonical
/// big-integer representative of the scalar: the discrete logarithm is
/// multiplied by the scalar modulo the group order.
#[verifier::external_body]
pub fn g1_mul(s: &ark_bn254::Fr, p: &GroupElem) -> (r: GroupElem)
    ensures
        dlog(r) == fmul(fr_val(*s), dlog(*p)),
        in_f(dlog(r)),
{
    GroupElem { inner: p.inner.mul(s.into_repr()) }
}

/// Relies on the equality of G1 projective points, which decides equality of
/// the represented group elements; the discrete logarithm is injective.
#[verifier::external_body]
pub fn g1_eq(a: &GroupElem, b: &GroupElem) -> (r: bool)
    ensures
        r <==> dlog(*a) == dlog(*b),
{
    a.inner == b.inner
}

/// Relies on Clone for G1, which copies the value.
#[verifier::external_body]
pub fn g1_copy(a: &GroupElem) -> (r: GroupElem)
    ensures
        r == *a,
{
    GroupElem { inner: a.inner }
}

/// Relies on ark_serialize::CanonicalSerialize for the affine form of a G1
/// point: the 32-byte compressed encoding, a function of the point alone.
#[verifier::external_body]
pub fn g1_to_bytes(a: &GroupElem) -> (r: Vec<u8>)
    ensures
        r@ == ser_g1(dlog(*a)),
        r@.len() == 32,
{
    let mut out: Vec<u8> = Vec::new();
    a.inner.into_affine().serialize(&mut out).expect("writing to a Vec cannot fail");
    out
}

/// Relies on ark_serialize::CanonicalDeserialize for G1 affine points, which
/// validates curve and group membership; every parsed point therefore has a
/// discrete logarithm in range.  (The flag encoding of the identity is not
/// unique, so nothing is claimed about the bytes; a caller that needs the
/// canonical form re-serializes and compares.)
#[verifier::external_body]
pub fn g1_from_bytes(bytes: &Vec<u8>) -> (r: Option<GroupElem>)
    ensures
        r matches Some(p) ==> in_f(dlog(p)),
{
    match ark_bn254::G1Affine::deserialize(&bytes[..]) {
        Ok(p) => Some(GroupElem { inner: p.into_projective() }),
        Err(_) => None,
    }
}

/// The abstract state of the deterministic random number generator after
/// seeding.
pub uninterp spec fn rng_state_of_seed(seed: u64) -> nat;

/// The scalar that ark_ff::UniformRand::rand for Fr draws from the generator
/// in the given abstract state, and the state that the draw leaves behind.
pub uninterp spec fn fr_draw(s: nat) -> int;

pub uninterp spec fn fr_draw_next(s: nat) -> nat;

/// The group element that ark_ff::UniformRand::rand for G1 draws, and the
/// state it leaves behind.
pub uninterp spec fn g1_draw(s: nat) -> int;

pub uninterp spec fn g1_draw_next(s: nat) -> nat;

/// The index that rand::Rng::gen_range draws below the bound, and the state
/// it leaves behind.
pub uninterp spec fn idx_draw(s: nat, bound: nat) -> nat;

pub uninterp spec fn idx_draw_next(s: nat, bound: nat) -> nat;

/// The abstract state of a standard generator value.
pub uninterp spec fn rng_state(r: rand::rngs::StdRng) -> nat;

/// A deterministic random source: the rand crate's standard generator, which
/// is a pure function of its seed, tracked abstractly by [`rng_state`].
pub struct Sampler {
    pub inner: rand::rngs::StdRng,
}

impl View for Sampler {
    type V = nat;

    open spec fn view(&self) -> nat {
        rng_state(self.inner)
    }
}

impl Sampler {
    /// Relies on rand::SeedableRng::seed_from_u64 for StdRng, a deterministic
    /// function of the seed.
    #[verifier::external_body]
    pub fn from_seed(seed: u64) -> (r: Sampler)
        ensures
            rng_state(r.inner) == rng_state_of_seed(seed),
    {
        Sampler { inner: rand::rngs::StdRng::seed_from_u64(seed) }
    }
}

/// Relies on ark_ff::UniformRand::rand for Fr: a deterministic function of
/// the generator state, with a canonical result.
#[verifier::external_body]
pub fn fr_rand(rng: &mut Sampler) -> (r: ark_bn254::Fr)
    ensures
        fr_val(r) == fr_draw(old(rng)@),
        in_f(fr_val(r)),
        rng_state(final(rng).inner) == fr_draw_next(old(rng)@),
{
    ark_bn254::Fr::rand(&mut rng.inner)
}

/// Relies on ark_ff::UniformRand::rand for G1 projective points: a
/// deterministic function of the generator state, with a result in the
/// group.
#[verifier::external_body]
pub fn g1_rand(rng: &mut Sampler) -> (r: GroupElem)
    ensures
        dlog(r) == g1_draw(old(rng)@),
        in_f(dlog(r)),
        rng_state(final(rng).inner) == g1_draw_next(old(rng)@),
{
    GroupElem { inner: ark_bn254::G1Projective::rand(&mut rng.inner) }
}

/// Relies on rand::Rng::gen_range for a half-open range below the bound: a
/// deterministic function of the generator state that stays below the bound.
#[verifier::external_body]
pub fn idx_rand(rng: &mut Sampler, bound: usize) -> (r: usize)
    requires
        bound > 0,
    ensures
        r < bound,
        r as nat == idx_draw(old(rng)@, bound as nat),
        rng_state(final(rng).inner) == idx_draw_next(old(rng)@, bound as nat),
{
    rng.inner.gen_range(0..bound)
}

} // verus!
