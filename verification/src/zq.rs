//! The mathematical model of the scalar field and of the group.
//!
//! The BN254 G1 group has prime order and cofactor one, so the group is
//! cyclic: a group element is determined by its discrete logarithm, an
//! integer modulo the order, and the scalar field is the integers modulo the
//! same order.  Every contract in this crate speaks about those integers.
//! This module defines the field operations on them and proves the algebraic
//! laws that the protocol proofs rest on.

use vstd::prelude::*;
use vstd::arithmetic::div_mod::{
    lemma_add_mod_noop, lemma_add_mod_noop_right, lemma_mod_twice, lemma_mul_mod_noop,
    lemma_mul_mod_noop_general, lemma_small_mod, lemma_sub_mod_noop, lemma_sub_mod_noop_right,
};
use vstd::arithmetic::mul::{
    lemma_mul_is_associative, lemma_mul_is_commutative, lemma_mul_is_distributive_add,
};

verus! {

/// The order of the BN254 G1 group, which is also the modulus of its scalar
/// field: the prime
/// 21888242871839275222246405745257275088548364400416034343698204186575808495617,
/// written here from its two 128-bit halves.
pub open spec fn q() -> int {
    (0x30644e72e131a029b85045b68181585d * 0x10000000000000000 * 0x10000000000000000
        + 0x2833e84879b9709143e1f593f0000001) as int
}

/// A canonical field element: the representative of a residue class.
pub open spec fn in_f(a: int) -> bool {
    0 <= a < q()
}

/// Field addition.
pub open spec fn fadd(a: int, b: int) -> int {
    (a + b) % q()
}

/// Field subtraction.
pub open spec fn fsub(a: int, b: int) -> int {
    (a - b) % q()
}

/// Field negation.
pub open spec fn fneg(a: int) -> int {
    (0 - a) % q()
}

/// Field multiplication.
pub open spec fn fmul(a: int, b: int) -> int {
    (a * b) % q()
}

/// Field exponentiation by a natural number.
pub open spec fn fpow(a: int, e: nat) -> int
    decreases e,
{
    if e == 0 {
        1
    } else {
        fmul(a, fpow(a, (e - 1) as nat))
    }
}

pub proof fn lemma_q_pos()
    ensures
        q() > 1,
{
}

pub broadcast proof fn lemma_fadd_in_f(a: int, b: int)
    ensures
        in_f(#[trigger] fadd(a, b)),
{
    lemma_q_pos();
}

pub broadcast proof fn lemma_fsub_in_f(a: int, b: int)
    ensures
        in_f(#[trigger] fsub(a, b)),
{
    lemma_q_pos();
}

pub broadcast proof fn lemma_fmul_in_f(a: int, b: int)
    ensures
        in_f(#[trigger] fmul(a, b)),
{
    lemma_q_pos();
}

pub proof fn lemma_fadd_comm(a: int, b: int)
    ensures
        fadd(a, b) == fadd(b, a),
{
}

pub proof fn lemma_fmul_comm(a: int, b: int)
    ensures
        fmul(a, b) == fmul(b, a),
{
    lemma_mul_is_commutative(a, b);
}

/// Addition of canonical elements may be re-associated freely.
pub proof fn lemma_fadd_assoc(a: int, b: int, c: int)
    ensures
        fadd(fadd(a, b), c) == fadd(a, fadd(b, c)),
{
    lemma_add_mod_noop(a + b, c, q());
    lemma_add_mod_noop_right(a, b + c, q());
    lemma_mod_twice(a + b, q());
    lemma_mod_twice(b + c, q());
    lemma_add_mod_noop_right(a + b, c, q());
    lemma_add_mod_noop(a, b + c, q());
    assert(fadd(fadd(a, b), c) == (a + b + c) % q()) by {
        lemma_add_mod_noop(a + b, c, q());
        lemma_mod_twice(c, q());
        lemma_add_mod_noop_right((a + b) % q(), c, q());
    }
    assert(fadd(a, fadd(b, c)) == (a + b + c) % q()) by {
        lemma_add_mod_noop_right(a, b + c, q());
    }
}

/// Multiplication may be re-associated freely.
pub proof fn lemma_fmul_assoc(a: int, b: int, c: int)
    ensures
        fmul(fmul(a, b), c) == fmul(a, fmul(b, c)),
{
    lemma_mul_mod_noop_general(a * b, c, q());
    lemma_mul_mod_noop_general(a, b * c, q());
    lemma_mul_is_associative(a, b, c);
}

/// Multiplication distributes over field addition.
pub proof fn lemma_fmul_distrib(a: int, b: int, c: int)
    ensures
        fmul(a, fadd(b, c)) == fadd(fmul(a, b), fmul(a, c)),
{
    lemma_mul_mod_noop_general(a, b + c, q());
    lemma_mul_is_distributive_add(a, b, c);
    lemma_add_mod_noop(a * b, a * c, q());
}

/// Adding and then subtracting the same element is the identity on canonical
/// elements.
pub proof fn lemma_fadd_fsub_cancel(a: int, b: int)
    requires
        in_f(a),
    ensures
        fsub(fadd(a, b), b) == a,
{
    lemma_sub_mod_noop_right(a + b, b, q());
    assert((a + b - b) % q() == a % q());
    lemma_small_mod(a as nat, q() as nat);
    lemma_mod_twice(a + b, q());
    assert(fsub(fadd(a, b), b) == ((a + b) % q() - b) % q());
    lemma_sub_mod_noop((a + b) % q(), b, q());
    lemma_sub_mod_noop(a + b, b, q());
    lemma_mod_twice(b, q());
    assert((((a + b) % q()) - (b % q())) % q() == (a + b - b) % q()) by {
        lemma_sub_mod_noop(a + b, b, q());
    }
    assert((((a + b) % q()) - b) % q() == (((a + b) % q()) - (b % q())) % q()) by {
        lemma_sub_mod_noop_right((a + b) % q(), b, q());
    }
}

/// A canonical element is unchanged by reduction.
pub proof fn lemma_canonical_mod(a: int)
    requires
        in_f(a),
    ensures
        a % q() == a,
{
    lemma_small_mod(a as nat, q() as nat);
}

/// Multiplying canonical elements in either reduced or unreduced form gives
/// the same result.
pub proof fn lemma_fmul_mod_noop(a: int, b: int)
    ensures
        fmul(a % q(), b) == fmul(a, b),
        fmul(a, b % q()) == fmul(a, b),
        fmul(a % q(), b % q()) == fmul(a, b),
{
    lemma_mul_mod_noop(a, b, q());
    lemma_mul_mod_noop_general(a, b, q());
    lemma_mul_mod_noop_general(a % q(), b, q());
    lemma_mod_twice(a, q());
    lemma_mul_mod_noop_general(a, b % q(), q());
    lemma_mod_twice(b, q());
}

/// Subtraction in either reduced or unreduced form gives the same result.
pub proof fn lemma_fsub_mod_noop(a: int, b: int)
    ensures
        fsub(a % q(), b) == fsub(a, b),
        fsub(a, b % q()) == fsub(a, b),
        fsub(a % q(), b % q()) == fsub(a, b),
{
    lemma_sub_mod_noop(a % q(), b, q());
    lemma_mod_twice(a, q());
    lemma_sub_mod_noop(a, b, q());
    lemma_sub_mod_noop_right(a, b, q());
}

/// Four summands may be regrouped pairwise.
pub proof fn lemma_fadd_rearrange(a: int, b: int, c: int, d: int)
    ensures
        fadd(fadd(a, b), fadd(c, d)) == fadd(fadd(a, c), fadd(b, d)),
{
    lemma_fadd_assoc(fadd(a, b), c, d);
    lemma_fadd_assoc(a, b, c);
    assert(fadd(b, c) == fadd(c, b));
    lemma_fadd_assoc(a, c, b);
    lemma_fadd_assoc(fadd(a, c), b, d);
}

/// Adding a negation is subtraction.
pub proof fn lemma_fadd_fneg(a: int, b: int)
    ensures
        fadd(a, fneg(b)) == fsub(a, b),
{
    lemma_add_mod_noop_right(a, 0 - b, q());
}

/// Identities of zero and one.
pub proof fn lemma_fadd_zero(a: int)
    requires
        in_f(a),
    ensures
        fadd(a, 0) == a,
        fadd(0, a) == a,
{
    lemma_small_mod(a as nat, q() as nat);
}

pub proof fn lemma_fmul_zero(a: int)
    ensures
        fmul(a, 0) == 0,
        fmul(0, a) == 0,
{
    lemma_small_mod(0nat, q() as nat);
}

/// Addition in either reduced or unreduced form gives the same result.
pub proof fn lemma_fadd_mod_noop(a: int, b: int)
    ensures
        fadd(a % q(), b) == fadd(a, b),
        fadd(a, b % q()) == fadd(a, b),
        fadd(a % q(), b % q()) == fadd(a, b),
{
    lemma_add_mod_noop(a % q(), b, q());
    lemma_mod_twice(a, q());
    lemma_add_mod_noop(a, b, q());
    lemma_add_mod_noop_right(a, b, q());
}

} // verus!
