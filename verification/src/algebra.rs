//! Sums, inner products and power vectors over the field model.

use vstd::prelude::*;

use crate::zq::{fadd, fmul, lemma_fadd_assoc, q};

verus! {

/// The sum of the first `k` products `vs[i] * gs[i]` in the field.
pub open spec fn psum(gs: Seq<int>, vs: Seq<int>, k: nat) -> int
    decreases k,
{
    if k == 0 {
        0
    } else {
        fadd(psum(gs, vs, (k - 1) as nat), fmul(vs[k - 1], gs[k - 1]))
    }
}

/// The sum of the first `k` entries of `vs` in the field.
pub open spec fn fsum(vs: Seq<int>, k: nat) -> int
    decreases k,
{
    if k == 0 {
        0
    } else {
        fadd(fsum(vs, (k - 1) as nat), vs[k - 1])
    }
}

/// Appending one term to a partial weighted sum.
pub proof fn lemma_psum_step(gs: Seq<int>, vs: Seq<int>, k: nat)
    requires
        k > 0,
    ensures
        psum(gs, vs, k) == fadd(psum(gs, vs, (k - 1) as nat), fmul(vs[k - 1], gs[k - 1])),
{
}

/// The weighted sum only reads the first `k` entries of both sequences.
pub proof fn lemma_psum_congruence(gs1: Seq<int>, vs1: Seq<int>, gs2: Seq<int>, vs2: Seq<int>, k: nat)
    requires
        forall|i: int| 0 <= i < k ==> gs1[i] == gs2[i] && vs1[i] == vs2[i],
    ensures
        psum(gs1, vs1, k) == psum(gs2, vs2, k),
    decreases k,
{
    if k > 0 {
        lemma_psum_congruence(gs1, vs1, gs2, vs2, (k - 1) as nat);
    }
}

/// Two weighted sums over the same weights may be added term by term.
pub proof fn lemma_psum_add(gs: Seq<int>, us: Seq<int>, vs: Seq<int>, ws: Seq<int>, k: nat)
    requires
        forall|i: int| 0 <= i < k ==> ws[i] == fadd(us[i], vs[i]),
    ensures
        psum(gs, ws, k) == fadd(psum(gs, us, k), psum(gs, vs, k)),
    decreases k,
{
    crate::zq::lemma_q_pos();
    if k == 0 {
        vstd::arithmetic::div_mod::lemma_small_mod(0nat, q() as nat);
    } else {
        let km1 = (k - 1) as nat;
        lemma_psum_add(gs, us, vs, ws, km1);
        let a = psum(gs, us, km1);
        let b = psum(gs, vs, km1);
        let tu = fmul(us[k - 1], gs[k - 1]);
        let tv = fmul(vs[k - 1], gs[k - 1]);
        assert(fmul(ws[k - 1], gs[k - 1]) == fadd(tu, tv)) by {
            crate::zq::lemma_fmul_mod_noop(us[k - 1] + vs[k - 1], gs[k - 1]);
            vstd::arithmetic::mul::lemma_mul_is_distributive_add_other_way(
                gs[k - 1],
                us[k - 1],
                vs[k - 1],
            );
            vstd::arithmetic::div_mod::lemma_add_mod_noop(
                us[k - 1] * gs[k - 1],
                vs[k - 1] * gs[k - 1],
                q(),
            );
        }
        assert(psum(gs, ws, k) == fadd(fadd(a, b), fadd(tu, tv)));
        assert(fadd(fadd(a, b), fadd(tu, tv)) == fadd(fadd(a, tu), fadd(b, tv))) by {
            lemma_fadd_assoc(fadd(a, b), tu, tv);
            lemma_fadd_assoc(a, b, tu);
            assert(fadd(b, tu) == fadd(tu, b));
            lemma_fadd_assoc(a, tu, b);
            lemma_fadd_assoc(fadd(a, tu), b, tv);
        }
        assert(psum(gs, us, k) == fadd(a, tu));
        assert(psum(gs, vs, k) == fadd(b, tv));
    }
}

/// A weighted sum scales: multiplying every value by one scalar multiplies
/// the sum by it.
pub proof fn lemma_psum_scale(gs: Seq<int>, vs: Seq<int>, sv: Seq<int>, x: int, k: nat)
    requires
        forall|i: int| 0 <= i < k ==> sv[i] == fmul(x, vs[i]),
    ensures
        psum(gs, sv, k) == fmul(x, psum(gs, vs, k)),
    decreases k,
{
    crate::zq::lemma_q_pos();
    if k == 0 {
        crate::zq::lemma_fmul_zero(x);
    } else {
        let km1 = (k - 1) as nat;
        lemma_psum_scale(gs, vs, sv, x, km1);
        let p = psum(gs, vs, km1);
        let t = fmul(vs[k - 1], gs[k - 1]);
        assert(fmul(sv[k - 1], gs[k - 1]) == fmul(x, t)) by {
            crate::zq::lemma_fmul_mod_noop(x * vs[k - 1], gs[k - 1]);
            crate::zq::lemma_fmul_assoc(x, vs[k - 1], gs[k - 1]);
            crate::zq::lemma_fmul_mod_noop(x, vs[k - 1] * gs[k - 1]);
        }
        assert(fadd(fmul(x, p), fmul(x, t)) == fmul(x, fadd(p, t))) by {
            crate::zq::lemma_fmul_distrib(x, p, t);
        }
    }
}

} // verus!
