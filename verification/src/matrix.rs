//! Vector and matrix arithmetic over scalars, group elements and
//! ciphertexts, with the spec-level sums the argument contracts use.

use vstd::prelude::*;

use crate::algebra::psum;
use crate::elgamal::{cadd, cmul, Ciphertext};
use crate::error::CryptoError;
use crate::group::{
    dlog, fr_add, fr_copy, fr_mul, fr_val, fr_zero, g1_add, g1_mul, g1_zero, GroupElem,
};
use crate::zq::{fadd, fmul, fpow, in_f};

verus! {

/// The canonical values of a scalar sequence.
pub open spec fn vals(s: Seq<ark_bn254::Fr>) -> Seq<int> {
    s.map(|i: int, x: ark_bn254::Fr| fr_val(x))
}

/// The discrete logarithms of a point sequence.
pub open spec fn pts(s: Seq<GroupElem>) -> Seq<int> {
    s.map(|i: int, p: GroupElem| dlog(p))
}

/// The views of a ciphertext sequence.
pub open spec fn cvs(s: Seq<Ciphertext>) -> Seq<(int, int)> {
    s.map(|i: int, c: Ciphertext| c@)
}

/// The sum of the first `k` ciphertexts `ws[i] * cs[i]`.
pub open spec fn cpsum(cs: Seq<(int, int)>, ws: Seq<int>, k: nat) -> (int, int)
    decreases k,
{
    if k == 0 {
        (0int, 0int)
    } else {
        cadd(cpsum(cs, ws, (k - 1) as nat), cmul(ws[k - 1], cs[k - 1]))
    }
}

/// The all-zero sequence.
pub open spec fn zero_seq(n: nat) -> Seq<int> {
    Seq::new(n, |i: int| 0int)
}

/// A scalar placed in the first slot of an otherwise zero vector.
pub open spec fn pad_first(b: int, n: nat) -> Seq<int> {
    Seq::new(n, |i: int| if i == 0 { b } else { 0int })
}

/// The ciphertext sum only reads the first `k` entries.
pub proof fn lemma_cpsum_congruence(cs1: Seq<(int, int)>, ws1: Seq<int>, cs2: Seq<(int, int)>, ws2: Seq<int>, k: nat)
    requires
        forall|i: int| 0 <= i < k ==> cs1[i] == cs2[i] && ws1[i] == ws2[i],
    ensures
        cpsum(cs1, ws1, k) == cpsum(cs2, ws2, k),
    decreases k,
{
    if k > 0 {
        lemma_cpsum_congruence(cs1, ws1, cs2, ws2, (k - 1) as nat);
    }
}

/// The powers `x^0, ..., x^(n-1)` as scalars.
pub fn scalar_powers(x: &ark_bn254::Fr, n: usize) -> (r: Vec<ark_bn254::Fr>)
    ensures
        r@.len() == n,
        forall|i: int| 0 <= i < n ==> fr_val(#[trigger] r@[i]) == fpow(fr_val(*x), i as nat),
{
    let mut out: Vec<ark_bn254::Fr> = Vec::new();
    let mut cur = crate::group::fr_one();
    let mut i: usize = 0;
    while i < n
        invariant
            i <= n,
            out@.len() == i,
            fr_val(cur) == fpow(fr_val(*x), i as nat),
            forall|j: int| 0 <= j < i ==> fr_val(#[trigger] out@[j]) == fpow(fr_val(*x), j as nat),
        decreases n - i,
    {
        out.push(fr_copy(&cur));
        let next = fr_mul(x, &cur);
        cur = next;
        i = i + 1;
    }
    out
}

/// The multi-scalar multiplication `sum ws[i] * ps[i]`.
pub fn msm(ps: &Vec<GroupElem>, ws: &Vec<ark_bn254::Fr>) -> (r: GroupElem)
    requires
        ps@.len() == ws@.len(),
    ensures
        dlog(r) == psum(pts(ps@), vals(ws@), ps@.len()),
        in_f(dlog(r)),
{
    let mut acc = g1_zero();
    proof {
        crate::zq::lemma_q_pos();
    }
    let mut i: usize = 0;
    while i < ps.len()
        invariant
            i <= ps@.len(),
            ps@.len() == ws@.len(),
            dlog(acc) == psum(pts(ps@), vals(ws@), i as nat),
            in_f(dlog(acc)),
        decreases ps@.len() - i,
    {
        let term = g1_mul(&ws[i], &ps[i]);
        let next = g1_add(&acc, &term);
        proof {
            crate::zq::lemma_canonical_mod(fadd(dlog(acc), dlog(term)));
        }
        acc = next;
        i = i + 1;
    }
    acc
}

/// The ciphertext multi-scalar multiplication `sum ws[i] * cs[i]`.
pub fn cipher_msm(cs: &Vec<Ciphertext>, ws: &Vec<ark_bn254::Fr>) -> (r: Ciphertext)
    requires
        cs@.len() == ws@.len(),
    ensures
        r@ == cpsum(cvs(cs@), vals(ws@), cs@.len()),
{
    let mut acc = Ciphertext::zero();
    let mut i: usize = 0;
    while i < cs.len()
        invariant
            i <= cs@.len(),
            cs@.len() == ws@.len(),
            acc@ == cpsum(cvs(cs@), vals(ws@), i as nat),
        decreases cs@.len() - i,
    {
        let term = cs[i].scale(&ws[i]);
        let next = acc.add_cipher(&term);
        acc = next;
        i = i + 1;
    }
    acc
}

/// The linear combination of ciphertexts weighted by scalars, failing
/// exactly on a length mismatch.
pub fn dot_product(ws: &Vec<ark_bn254::Fr>, cs: &Vec<Ciphertext>) -> (r: Result<
    Ciphertext,
    CryptoError,
>)
    ensures
        ws@.len() == cs@.len() ==> (r matches Ok(c) && c@ == cpsum(cvs(cs@), vals(ws@), cs@.len())),
        ws@.len() != cs@.len() ==> (r matches Err(e) && e == CryptoError::InvalidVectorLength),
{
    if ws.len() != cs.len() {
        return Err(CryptoError::InvalidVectorLength);
    }
    Ok(cipher_msm(cs, ws))
}

/// Element-wise sum of two scalar vectors.
pub fn vec_add(a: &Vec<ark_bn254::Fr>, b: &Vec<ark_bn254::Fr>) -> (r: Vec<ark_bn254::Fr>)
    requires
        a@.len() == b@.len(),
    ensures
        r@.len() == a@.len(),
        forall|i: int|
            0 <= i < a@.len() ==> fr_val(#[trigger] r@[i]) == fadd(fr_val(a@[i]), fr_val(b@[i])),
{
    let mut out: Vec<ark_bn254::Fr> = Vec::new();
    let mut i: usize = 0;
    while i < a.len()
        invariant
            i <= a@.len(),
            a@.len() == b@.len(),
            out@.len() == i,
            forall|j: int|
                0 <= j < i ==> fr_val(#[trigger] out@[j]) == fadd(fr_val(a@[j]), fr_val(b@[j])),
        decreases a@.len() - i,
    {
        out.push(fr_add(&a[i], &b[i]));
        i = i + 1;
    }
    out
}

/// A scalar vector scaled by one scalar.
pub fn vec_scale(x: &ark_bn254::Fr, v: &Vec<ark_bn254::Fr>) -> (r: Vec<ark_bn254::Fr>)
    ensures
        r@.len() == v@.len(),
        forall|i: int|
            0 <= i < v@.len() ==> fr_val(#[trigger] r@[i]) == fmul(fr_val(*x), fr_val(v@[i])),
{
    let mut out: Vec<ark_bn254::Fr> = Vec::new();
    let mut i: usize = 0;
    while i < v.len()
        invariant
            i <= v@.len(),
            out@.len() == i,
            forall|j: int|
                0 <= j < i ==> fr_val(#[trigger] out@[j]) == fmul(fr_val(*x), fr_val(v@[j])),
        decreases v@.len() - i,
    {
        out.push(fr_mul(x, &v[i]));
        i = i + 1;
    }
    out
}

/// The inner product of two scalar vectors of the same length.
pub fn scalar_dot(a: &Vec<ark_bn254::Fr>, b: &Vec<ark_bn254::Fr>) -> (r: ark_bn254::Fr)
    requires
        a@.len() == b@.len(),
    ensures
        fr_val(r) == psum(vals(b@), vals(a@), a@.len()),
        in_f(fr_val(r)),
{
    let mut acc = fr_zero();
    proof {
        crate::zq::lemma_q_pos();
    }
    let mut i: usize = 0;
    while i < a.len()
        invariant
            i <= a@.len(),
            a@.len() == b@.len(),
            fr_val(acc) == psum(vals(b@), vals(a@), i as nat),
            in_f(fr_val(acc)),
        decreases a@.len() - i,
    {
        let term = fr_mul(&a[i], &b[i]);
        let next = fr_add(&acc, &term);
        proof {
            crate::zq::lemma_canonical_mod(fadd(fr_val(acc), fr_val(term)));
        }
        acc = next;
        i = i + 1;
    }
    acc
}

/// A copy of the sub-vector `v[from..to]`.
pub fn vec_slice(v: &Vec<ark_bn254::Fr>, from: usize, to: usize) -> (r: Vec<ark_bn254::Fr>)
    requires
        from <= to <= v@.len(),
    ensures
        r@ == v@.subrange(from as int, to as int),
{
    let mut out: Vec<ark_bn254::Fr> = Vec::new();
    let mut i: usize = from;
    while i < to
        invariant
            from <= i <= to <= v@.len(),
            out@.len() == i - from,
            forall|j: int| 0 <= j < i - from ==> #[trigger] out@[j] == v@[from + j],
        decreases to - i,
    {
        out.push(fr_copy(&v[i]));
        i = i + 1;
    }
    proof {
        assert(out@ =~= v@.subrange(from as int, to as int));
    }
    out
}

/// A copy of a scalar vector.
pub fn vec_dup(v: &Vec<ark_bn254::Fr>) -> (r: Vec<ark_bn254::Fr>)
    ensures
        r@ == v@,
{
    let mut out: Vec<ark_bn254::Fr> = Vec::new();
    let mut i: usize = 0;
    while i < v.len()
        invariant
            i <= v@.len(),
            out@.len() == i,
            forall|j: int| 0 <= j < i ==> #[trigger] out@[j] == v@[j],
        decreases v@.len() - i,
    {
        out.push(fr_copy(&v[i]));
        i = i + 1;
    }
    proof {
        assert(out@ =~= v@);
    }
    out
}

/// The all-zero scalar vector.
pub fn zero_vector(n: usize) -> (r: Vec<ark_bn254::Fr>)
    ensures
        r@.len() == n,
        vals(r@) =~= zero_seq(n as nat),
{
    let mut out: Vec<ark_bn254::Fr> = Vec::new();
    let mut i: usize = 0;
    while i < n
        invariant
            i <= n,
            out@.len() == i,
            forall|j: int| 0 <= j < i ==> fr_val(#[trigger] out@[j]) == 0,
        decreases n - i,
    {
        out.push(fr_zero());
        i = i + 1;
    }
    out
}

/// A scalar placed first in an otherwise zero vector of length `n`.
pub fn pad_first_vector(b: &ark_bn254::Fr, n: usize) -> (r: Vec<ark_bn254::Fr>)
    requires
        n >= 1,
    ensures
        r@.len() == n,
        vals(r@) =~= pad_first(fr_val(*b), n as nat),
{
    let mut out: Vec<ark_bn254::Fr> = Vec::new();
    out.push(fr_copy(b));
    let mut i: usize = 1;
    while i < n
        invariant
            1 <= i <= n,
            out@.len() == i,
            fr_val(out@[0]) == fr_val(*b),
            forall|j: int| 1 <= j < i ==> fr_val(#[trigger] out@[j]) == 0,
        decreases n - i,
    {
        out.push(fr_zero());
        i = i + 1;
    }
    out
}

/// Reshape a flat scalar vector into `m` rows of `n` entries, failing
/// exactly when the length is not `m * n` or a dimension is zero.
pub fn reshape_scalars(v: &Vec<ark_bn254::Fr>, m: usize, n: usize) -> (r: Result<
    Vec<Vec<ark_bn254::Fr>>,
    CryptoError,
>)
    ensures
        (v@.len() == m * n && m >= 1 && n >= 1) ==> (r matches Ok(rows) && rows@.len() == m
            && (forall|i: int| 0 <= i < m ==> (#[trigger] rows@[i])@.len() == n) && (forall|
            i: int,
            j: int,
        |
            0 <= i < m && 0 <= j < n ==> (#[trigger] rows@[i]@[j]) == v@[i * n + j])),
        !(v@.len() == m * n && m >= 1 && n >= 1) ==> (r matches Err(e) && e
            == CryptoError::InvalidShuffleStatement),
{
    if m == 0 || n == 0 {
        return Err(CryptoError::InvalidShuffleStatement);
    }
    if v.len() / n != m || v.len() % n != 0 {
        proof {
            if v@.len() == m * n {
                vstd::arithmetic::div_mod::lemma_fundamental_div_mod_converse(
                    v@.len() as int,
                    n as int,
                    m as int,
                    0,
                );
            }
        }
        return Err(CryptoError::InvalidShuffleStatement);
    }
    proof {
        vstd::arithmetic::div_mod::lemma_fundamental_div_mod(v@.len() as int, n as int);
        vstd::arithmetic::mul::lemma_mul_is_commutative(m as int, n as int);
    }
    let total = v.len();
    let mut rows: Vec<Vec<ark_bn254::Fr>> = Vec::new();
    let mut i: usize = 0;
    while i < m
        invariant
            i <= m,
            total == v@.len(),
            v@.len() == m * n,
            n >= 1,
            rows@.len() == i,
            forall|a: int| 0 <= a < i ==> (#[trigger] rows@[a])@.len() == n,
            forall|a: int, b: int|
                0 <= a < i && 0 <= b < n ==> (#[trigger] rows@[a]@[b]) == v@[a * n + b],
        decreases m - i,
    {
        let mut row: Vec<ark_bn254::Fr> = Vec::new();
        let mut j: usize = 0;
        proof {
            vstd::arithmetic::mul::lemma_mul_inequality(i as int + 1, m as int, n as int);
            vstd::arithmetic::mul::lemma_mul_is_distributive_add_other_way(n as int, i as int, 1);
        }
        while j < n
            invariant
                j <= n,
                i < m,
                total == v@.len(),
                v@.len() == m * n,
                (i + 1) * n <= m * n,
                (i + 1) * n == i * n + n,
                row@.len() == j,
                forall|b: int| 0 <= b < j ==> (#[trigger] row@[b]) == v@[i * n + b],
            decreases n - j,
        {
            proof {
                vstd::arithmetic::mul::lemma_mul_is_commutative(i as int, n as int);
                vstd::arithmetic::mul::lemma_mul_inequality(i as int, i as int + 1, n as int);
                assert(i * n + j < (i + 1) * n);
            }
            row.push(fr_copy(&v[i * n + j]));
            j = j + 1;
        }
        rows.push(row);
        i = i + 1;
    }
    Ok(rows)
}

/// Reshape a flat ciphertext vector into `m` rows of `n` entries, failing
/// exactly when the length is not `m * n` or a dimension is zero.
pub fn reshape_ciphertexts(v: &Vec<Ciphertext>, m: usize, n: usize) -> (r: Result<
    Vec<Vec<Ciphertext>>,
    CryptoError,
>)
    ensures
        (v@.len() == m * n && m >= 1 && n >= 1) ==> (r matches Ok(rows) && rows@.len() == m
            && (forall|i: int| 0 <= i < m ==> (#[trigger] rows@[i])@.len() == n) && (forall|
            i: int,
            j: int,
        |
            0 <= i < m && 0 <= j < n ==> (#[trigger] rows@[i]@[j]) == v@[i * n + j])),
        !(v@.len() == m * n && m >= 1 && n >= 1) ==> (r matches Err(e) && e
            == CryptoError::InvalidShuffleStatement),
{
    if m == 0 || n == 0 {
        return Err(CryptoError::InvalidShuffleStatement);
    }
    if v.len() / n != m || v.len() % n != 0 {
        proof {
            if v@.len() == m * n {
                vstd::arithmetic::div_mod::lemma_fundamental_div_mod_converse(
                    v@.len() as int,
                    n as int,
                    m as int,
                    0,
                );
            }
        }
        return Err(CryptoError::InvalidShuffleStatement);
    }
    proof {
        vstd::arithmetic::div_mod::lemma_fundamental_div_mod(v@.len() as int, n as int);
        vstd::arithmetic::mul::lemma_mul_is_commutative(m as int, n as int);
    }
    let total = v.len();
    let mut rows: Vec<Vec<Ciphertext>> = Vec::new();
    let mut i: usize = 0;
    while i < m
        invariant
            i <= m,
            total == v@.len(),
            v@.len() == m * n,
            n >= 1,
            rows@.len() == i,
            forall|a: int| 0 <= a < i ==> (#[trigger] rows@[a])@.len() == n,
            forall|a: int, b: int|
                0 <= a < i && 0 <= b < n ==> (#[trigger] rows@[a]@[b]) == v@[a * n + b],
        decreases m - i,
    {
        let mut row: Vec<Ciphertext> = Vec::new();
        let mut j: usize = 0;
        proof {
            vstd::arithmetic::mul::lemma_mul_inequality(i as int + 1, m as int, n as int);
            vstd::arithmetic::mul::lemma_mul_is_distributive_add_other_way(n as int, i as int, 1);
        }
        while j < n
            invariant
                j <= n,
                i < m,
                total == v@.len(),
                v@.len() == m * n,
                (i + 1) * n <= m * n,
                (i + 1) * n == i * n + n,
                row@.len() == j,
                forall|b: int| 0 <= b < j ==> (#[trigger] row@[b]) == v@[i * n + b],
            decreases n - j,
        {
            proof {
                vstd::arithmetic::mul::lemma_mul_is_commutative(i as int, n as int);
                vstd::arithmetic::mul::lemma_mul_inequality(i as int, i as int + 1, n as int);
                assert(i * n + j < (i + 1) * n);
            }
            row.push(v[i * n + j].dup());
            j = j + 1;
        }
        rows.push(row);
        i = i + 1;
    }
    Ok(rows)
}

} // verus!
