//! The single-value product argument.
//!
//! Proves, for a public commitment to a vector `a` of length `n` and a
//! public scalar `b`, that the product of the entries of `a` is `b`.  The
//! prover commits to the partial products and to two derived vectors; after
//! the challenge `x` it opens `x a + d` and `x b + delta` together with the
//! combined blinders, and the verifier checks two commitment identities, the
//! agreement of the first opened entries, and that the last opened partial
//! product is `x` times the claimed product.

use vstd::prelude::*;

use crate::error::{is_stage_err, stage_error, CryptoError};
use crate::group::{
    dlog, fr_add, fr_copy, fr_mul, fr_neg, fr_rand, fr_sub, fr_val, fr_zero, fr_eq, g1_add, g1_eq,
    g1_mul, ser_fr, ser_g1, GroupElem, Sampler,
};
use crate::matrix::vals;
use crate::pedersen::{com, commit, CommitKey};
use crate::sampling::sample_vector;
use crate::transcript::{chal_at, Transcript};
use crate::zq::{fadd, fmul, fneg, fsub, in_f, q};

verus! {

/// Parameters: the commit key and the committed vector length.
pub struct Parameters {
    pub commit_key: CommitKey,
    pub n: usize,
}

impl Parameters {
    pub fn new(n: usize, commit_key: CommitKey) -> (r: Parameters)
        ensures
            r.n == n,
            r.commit_key == commit_key,
    {
        Parameters { commit_key, n }
    }
}

/// Witness: the committed vector and the blinder of its commitment.
pub struct Witness {
    pub a: Vec<ark_bn254::Fr>,
    pub random_for_a_commit: ark_bn254::Fr,
}

impl Witness {
    pub fn new(a: Vec<ark_bn254::Fr>, random_for_a_commit: ark_bn254::Fr) -> (r: Witness)
        ensures
            r.a == a,
            r.random_for_a_commit == random_for_a_commit,
    {
        Witness { a, random_for_a_commit }
    }
}

/// Statement: the commitment to `a` and the claimed product `b`.
pub struct Statement {
    pub a_commit: GroupElem,
    pub b: ark_bn254::Fr,
}

impl Statement {
    pub fn new(a_commit: GroupElem, b: ark_bn254::Fr) -> (r: Statement)
        ensures
            r.a_commit == a_commit,
            r.b == b,
    {
        Statement { a_commit, b }
    }
}

/// A single-value product proof.
pub struct Proof {
    pub d_commit: GroupElem,
    pub lo_commit: GroupElem,
    pub hi_commit: GroupElem,
    pub opened_a: Vec<ark_bn254::Fr>,
    pub opened_b: Vec<ark_bn254::Fr>,
    pub opened_r: ark_bn254::Fr,
    pub opened_s: ark_bn254::Fr,
}

/// The proof has the component counts the verifier expects.
pub open spec fn proof_shaped(p: Proof, n: nat) -> bool {
    &&& p.opened_a@.len() == n
    &&& p.opened_b@.len() == n
}

/// The challenge: drawn after absorbing the statement and the three
/// first-move commitments into the enclosing transcript.
pub open spec fn svp_challenge(
    hist0: Seq<Seq<u8>>,
    ac: int,
    bval: int,
    cd: int,
    clo: int,
    chi: int,
) -> int {
    chal_at(hist0 + seq![ser_g1(ac), ser_fr(bval), ser_g1(cd), ser_g1(clo), ser_g1(chi)], 0)
}

/// The transcript contents after the argument has run, with one challenge
/// drawn.
pub open spec fn svp_final_hist(
    hist0: Seq<Seq<u8>>,
    ac: int,
    bval: int,
    cd: int,
    clo: int,
    chi: int,
) -> Seq<Seq<u8>> {
    hist0 + seq![ser_g1(ac), ser_fr(bval), ser_g1(cd), ser_g1(clo), ser_g1(chi)]
}

/// The vector the verifier commits to in its second check:
/// `x * bt[i+1] - bt[i] * at[i+1]` for the first `n - 1` slots, zero in the
/// last.
pub open spec fn svp_test_seq(at: Seq<int>, bt: Seq<int>, x: int, n: nat) -> Seq<int> {
    Seq::new(
        n,
        |i: int|
            if i < n - 1 {
                fsub(fmul(x, bt[i + 1]), fmul(bt[i], at[i + 1]))
            } else {
                0int
            },
    )
}

/// The verifier's checks over the model.
pub open spec fn svp_accepts(
    hk: int,
    gs: Seq<int>,
    ac: int,
    bval: int,
    cd: int,
    clo: int,
    chi: int,
    at: Seq<int>,
    bt: Seq<int>,
    rt: int,
    st: int,
    x: int,
) -> bool {
    let n = gs.len();
    &&& com(hk, gs, at, rt) == fadd(fmul(x, ac), cd)
    &&& com(hk, gs, svp_test_seq(at, bt, x, n), st) == fadd(fmul(x, chi), clo)
    &&& bt[0] == at[0]
    &&& bt[n - 1] == fmul(x, bval)
}

/// The whole acceptance condition of the verifier, over the model: the
/// proof is well shaped and the checks hold for the challenge derived from
/// the given transcript contents.
pub open spec fn svp_ok(hk: int, gs: Seq<int>, ac: int, bval: int, p: Proof, hist0: Seq<Seq<u8>>) -> bool {
    &&& gs.len() >= 2
    &&& proof_shaped(p, gs.len())
    &&& svp_accepts(
        hk,
        gs,
        ac,
        bval,
        dlog(p.d_commit),
        dlog(p.lo_commit),
        dlog(p.hi_commit),
        vals(p.opened_a@),
        vals(p.opened_b@),
        fr_val(p.opened_r),
        fr_val(p.opened_s),
        svp_challenge(hist0, ac, bval, dlog(p.d_commit), dlog(p.lo_commit), dlog(p.hi_commit)),
    )
}

/// The product of the first `k` committed entries, as the prover's chain
/// of partial products computes it.
pub open spec fn svp_prod(a: Seq<int>, k: nat) -> int
    decreases k,
{
    if k == 0 {
        1
    } else if k == 1 {
        a[0]
    } else {
        fmul(svp_prod(a, (k - 1) as nat), a[k - 1])
    }
}

/// The argument.
pub struct SingleValueProductArgument;

impl SingleValueProductArgument {
    /// Produce a proof.  Succeeds exactly when the witness length matches
    /// the commit key and is at least two.
    pub fn prove(
        rng: &mut Sampler,
        parameters: &Parameters,
        statement: &Statement,
        witness: &Witness,
        t: &mut Transcript,
    ) -> (res: Result<Proof, CryptoError>)
        ensures
            (witness.a@.len() == parameters.commit_key.spec_len() && witness.a@.len() >= 2) <==> res
                is Ok,
            res matches Ok(p) ==> proof_shaped(p, parameters.commit_key.spec_len()),
            res matches Ok(p) ==> final(t).hist() =~= svp_final_hist(
                old(t).hist(),
                dlog(statement.a_commit),
                fr_val(statement.b),
                dlog(p.d_commit),
                dlog(p.lo_commit),
                dlog(p.hi_commit),
            ) && final(t).draws() == 1,
            res is Ok ==> final(rng)@ == crate::sampling::fr_stream_state(
                old(rng)@,
                (2 * parameters.commit_key.spec_len() + 3) as nat,
            ),
            res matches Ok(p) ==> ((forall|i: int|
                0 <= i < witness.a@.len() ==> in_f(#[trigger] vals(witness.a@)[i])) && dlog(
                statement.a_commit,
            ) == com(
                dlog(parameters.commit_key.h),
                parameters.commit_key.gs_vals(),
                vals(witness.a@),
                fr_val(witness.random_for_a_commit),
            ) && fr_val(statement.b) == svp_prod(
                vals(witness.a@),
                parameters.commit_key.spec_len(),
            ) ==> svp_ok(
                dlog(parameters.commit_key.h),
                parameters.commit_key.gs_vals(),
                dlog(statement.a_commit),
                fr_val(statement.b),
                p,
                old(t).hist(),
            )),
            res is Err ==> is_stage_err(res, "Single Value Product"@),
    {
        let ghost hist0 = t.hist();
        let ghost s0 = rng@;
        let n = parameters.commit_key.len();
        if witness.a.len() != n || n < 2 {
            return Err(stage_error("Single Value Product"));
        }
        let ghost av = vals(witness.a@);
        let ghost hk = dlog(parameters.commit_key.h);
        let ghost gs = parameters.commit_key.gs_vals();
        let ghost bpseq = Seq::new(n as nat, |l: int| svp_prod(av, (l + 1) as nat));

        // Partial products of the witness vector.
        let mut partials: Vec<ark_bn254::Fr> = Vec::new();
        partials.push(fr_copy(&witness.a[0]));
        let mut i: usize = 1;
        while i < n
            invariant
                1 <= i <= n,
                witness.a@.len() == n,
                av == vals(witness.a@),
                partials@.len() == i,
                forall|l: int|
                    0 <= l < i ==> fr_val(#[trigger] partials@[l]) == svp_prod(av, (l + 1) as nat),
            decreases n - i,
        {
            let next = fr_mul(&partials[i - 1], &witness.a[i]);
            partials.push(next);
            proof {
                assert(av[i as int] == fr_val(witness.a@[i as int]));
                assert(svp_prod(av, (i + 1) as nat) == fmul(svp_prod(av, i as nat), av[i as int]));
            }
            i = i + 1;
        }

        let d = sample_vector(rng, n);
        let r_d = fr_rand(rng);
        let mut delta = sample_vector(rng, n);
        delta[0] = fr_copy(&d[0]);
        delta[n - 1] = fr_zero();
        let s_lo = fr_rand(rng);
        let s_hi = fr_rand(rng);
        proof {
            crate::sampling::lemma_fr_stream_compose(s0, n as nat, 1);
            crate::sampling::lemma_fr_stream_compose(s0, (n + 1) as nat, n as nat);
            crate::sampling::lemma_fr_stream_compose(s0, (2 * n + 1) as nat, 1);
            crate::sampling::lemma_fr_stream_compose(s0, (2 * n + 2) as nat, 1);
        }
        let ghost dd = vals(d@);
        let ghost delt = vals(delta@);

        let d_commit = match commit(&parameters.commit_key, &d, &r_d) {
            Ok(c) => c,
            Err(_) => {
                return Err(stage_error("Single Value Product"));
            },
        };

        // lo[i] = -delta[i] * d[i+1], hi[i] = delta[i+1] - a[i+1] * delta[i]
        //       - partials[i] * d[i+1], both padded with a zero.
        let mut lo: Vec<ark_bn254::Fr> = Vec::new();
        let mut hi: Vec<ark_bn254::Fr> = Vec::new();
        let mut i: usize = 0;
        while i < n - 1
            invariant
                i <= n - 1,
                2 <= n,
                witness.a@.len() == n,
                av == vals(witness.a@),
                partials@.len() == n,
                forall|l: int|
                    0 <= l < n ==> fr_val(#[trigger] partials@[l]) == svp_prod(av, (l + 1) as nat),
                d@.len() == n,
                delta@.len() == n,
                dd == vals(d@),
                delt == vals(delta@),
                lo@.len() == i,
                hi@.len() == i,
                forall|l: int|
                    0 <= l < i ==> fr_val(#[trigger] lo@[l]) == fneg(fmul(delt[l], dd[l + 1])),
                forall|l: int|
                    0 <= l < i ==> fr_val(#[trigger] hi@[l]) == fsub(
                        fsub(delt[l + 1], fmul(av[l + 1], delt[l])),
                        fmul(svp_prod(av, (l + 1) as nat), dd[l + 1]),
                    ),
            decreases n - 1 - i,
        {
            lo.push(fr_neg(&fr_mul(&delta[i], &d[i + 1])));
            let t1 = fr_sub(&delta[i + 1], &fr_mul(&witness.a[i + 1], &delta[i]));
            hi.push(fr_sub(&t1, &fr_mul(&partials[i], &d[i + 1])));
            proof {
                assert(delt[i as int] == fr_val(delta@[i as int]));
                assert(delt[i + 1] == fr_val(delta@[i + 1]));
                assert(dd[i + 1] == fr_val(d@[i + 1]));
                assert(av[i + 1] == fr_val(witness.a@[i + 1]));
            }
            i = i + 1;
        }
        lo.push(fr_zero());
        hi.push(fr_zero());
        proof {
            assert(vals(lo@) =~= svp_lo_seq(dd, delt, n as nat));
            assert(vals(hi@) =~= svp_hi_seq(av, bpseq, dd, delt, n as nat));
        }

        let lo_commit = match commit(&parameters.commit_key, &lo, &s_lo) {
            Ok(c) => c,
            Err(_) => {
                return Err(stage_error("Single Value Product"));
            },
        };
        let hi_commit = match commit(&parameters.commit_key, &hi, &s_hi) {
            Ok(c) => c,
            Err(_) => {
                return Err(stage_error("Single Value Product"));
            },
        };

        t.absorb_point(&statement.a_commit);
        t.absorb_scalar(&statement.b);
        t.absorb_point(&d_commit);
        t.absorb_point(&lo_commit);
        t.absorb_point(&hi_commit);
        proof {
            assert(t.hist() =~= hist0 + seq![
                ser_g1(dlog(statement.a_commit)),
                ser_fr(fr_val(statement.b)),
                ser_g1(dlog(d_commit)),
                ser_g1(dlog(lo_commit)),
                ser_g1(dlog(hi_commit)),
            ]);
        }
        let x = t.challenge();
        let ghost xv = fr_val(x);

        let mut opened_a: Vec<ark_bn254::Fr> = Vec::new();
        let mut opened_b: Vec<ark_bn254::Fr> = Vec::new();
        let mut i: usize = 0;
        while i < n
            invariant
                i <= n,
                witness.a@.len() == n,
                av == vals(witness.a@),
                partials@.len() == n,
                forall|l: int|
                    0 <= l < n ==> fr_val(#[trigger] partials@[l]) == svp_prod(av, (l + 1) as nat),
                d@.len() == n,
                delta@.len() == n,
                dd == vals(d@),
                delt == vals(delta@),
                xv == fr_val(x),
                opened_a@.len() == i,
                opened_b@.len() == i,
                forall|l: int|
                    0 <= l < i ==> fr_val(#[trigger] opened_a@[l]) == fadd(
                        fmul(xv, av[l]),
                        dd[l],
                    ),
                forall|l: int|
                    0 <= l < i ==> fr_val(#[trigger] opened_b@[l]) == fadd(
                        fmul(xv, svp_prod(av, (l + 1) as nat)),
                        delt[l],
                    ),
            decreases n - i,
        {
            opened_a.push(fr_add(&fr_mul(&x, &witness.a[i]), &d[i]));
            opened_b.push(fr_add(&fr_mul(&x, &partials[i]), &delta[i]));
            proof {
                assert(av[i as int] == fr_val(witness.a@[i as int]));
                assert(dd[i as int] == fr_val(d@[i as int]));
                assert(delt[i as int] == fr_val(delta@[i as int]));
            }
            i = i + 1;
        }
        let opened_r = fr_add(&fr_mul(&x, &witness.random_for_a_commit), &r_d);
        let opened_s = fr_add(&fr_mul(&x, &s_hi), &s_lo);
        proof {
            assert(vals(opened_a@) =~= svp_opened(av, dd, xv, n as nat));
            assert(vals(opened_b@) =~= svp_opened(bpseq, delt, xv, n as nat));
            if (forall|l: int| 0 <= l < n ==> in_f(#[trigger] av[l])) && dlog(statement.a_commit)
                == com(hk, gs, av, fr_val(witness.random_for_a_commit)) && fr_val(statement.b)
                == svp_prod(av, n as nat) {
                assert forall|l: int| 0 <= l < n implies in_f(#[trigger] bpseq[l]) by {
                    if l == 0 {
                        assert(bpseq[0] == av[0]);
                    } else {
                        assert(svp_prod(av, (l + 1) as nat) == fmul(
                            svp_prod(av, l as nat),
                            av[l],
                        ));
                        crate::zq::lemma_fmul_in_f(svp_prod(av, l as nat), av[l]);
                    }
                }
                assert forall|l: int| 1 <= l < n implies bpseq[l] == fmul(bpseq[l - 1], av[l]) by {
                    assert(svp_prod(av, (l + 1) as nat) == fmul(svp_prod(av, l as nat), av[l]));
                }
                assert(delt[0] == dd[0]);
                assert(delt[n - 1] == 0);
                lemma_svp_completeness(
                    hk,
                    gs,
                    av,
                    bpseq,
                    dd,
                    delt,
                    fr_val(witness.random_for_a_commit),
                    fr_val(r_d),
                    fr_val(s_lo),
                    fr_val(s_hi),
                    xv,
                );
                assert(bpseq[n - 1] == svp_prod(av, n as nat));
            }
        }

        Ok(Proof { d_commit, lo_commit, hi_commit, opened_a, opened_b, opened_r, opened_s })
    }

    /// Verify a proof.  Accepts exactly when the proof is well shaped and
    /// every check of [`svp_accepts`] holds for the challenge derived from
    /// the transcript.
    pub fn verify(
        parameters: &Parameters,
        statement: &Statement,
        proof: &Proof,
        t: &mut Transcript,
    ) -> (res: Result<(), CryptoError>)
        ensures
            res is Ok <==> svp_ok(
                dlog(parameters.commit_key.h),
                parameters.commit_key.gs_vals(),
                dlog(statement.a_commit),
                fr_val(statement.b),
                *proof,
                old(t).hist(),
            ),
            res is Ok ==> final(t).hist() =~= svp_final_hist(
                old(t).hist(),
                dlog(statement.a_commit),
                fr_val(statement.b),
                dlog(proof.d_commit),
                dlog(proof.lo_commit),
                dlog(proof.hi_commit),
            ) && final(t).draws() == 1,
            res is Err ==> is_stage_err(res, "Single Value Product"@),
    {
        let ghost hist0 = t.hist();
        let n = parameters.commit_key.len();
        if n < 2 || proof.opened_a.len() != n || proof.opened_b.len() != n {
            return Err(stage_error("Single Value Product"));
        }

        t.absorb_point(&statement.a_commit);
        t.absorb_scalar(&statement.b);
        t.absorb_point(&proof.d_commit);
        t.absorb_point(&proof.lo_commit);
        t.absorb_point(&proof.hi_commit);
        proof {
            assert(t.hist() =~= hist0 + seq![
                ser_g1(dlog(statement.a_commit)),
                ser_fr(fr_val(statement.b)),
                ser_g1(dlog(proof.d_commit)),
                ser_g1(dlog(proof.lo_commit)),
                ser_g1(dlog(proof.hi_commit)),
            ]);
        }
        let x = t.challenge();
        let ghost xv = fr_val(x);

        let oc = match commit(&parameters.commit_key, &proof.opened_a, &proof.opened_r) {
            Ok(c) => c,
            Err(_) => {
                return Err(stage_error("Single Value Product"));
            },
        };
        let rhs1 = g1_add(&g1_mul(&x, &statement.a_commit), &proof.d_commit);
        let check1 = g1_eq(&oc, &rhs1);

        let mut test_vec: Vec<ark_bn254::Fr> = Vec::new();
        let mut i: usize = 0;
        while i < n - 1
            invariant
                i <= n - 1,
                2 <= n,
                xv == fr_val(x),
                proof.opened_a@.len() == n,
                proof.opened_b@.len() == n,
                test_vec@.len() == i,
                forall|j: int|
                    0 <= j < i ==> fr_val(#[trigger] test_vec@[j]) == fsub(
                        fmul(xv, vals(proof.opened_b@)[j + 1]),
                        fmul(vals(proof.opened_b@)[j], vals(proof.opened_a@)[j + 1]),
                    ),
            decreases n - 1 - i,
        {
            let t1 = fr_mul(&x, &proof.opened_b[i + 1]);
            let t2 = fr_mul(&proof.opened_b[i], &proof.opened_a[i + 1]);
            let entry = fr_sub(&t1, &t2);
            test_vec.push(entry);
            proof {
                assert(vals(proof.opened_b@)[i + 1] == fr_val(proof.opened_b@[i + 1]));
                assert(vals(proof.opened_b@)[i as int] == fr_val(proof.opened_b@[i as int]));
                assert(vals(proof.opened_a@)[i + 1] == fr_val(proof.opened_a@[i + 1]));
                assert(test_vec@[i as int] == entry);
                assert(fr_val(test_vec@[i as int]) == fsub(
                    fmul(xv, vals(proof.opened_b@)[i + 1]),
                    fmul(vals(proof.opened_b@)[i as int], vals(proof.opened_a@)[i + 1]),
                ));
            }
            i = i + 1;
        }
        test_vec.push(fr_zero());
        proof {
            assert(vals(test_vec@) =~= svp_test_seq(
                vals(proof.opened_a@),
                vals(proof.opened_b@),
                xv,
                n as nat,
            ));
        }
        let oc2 = match commit(&parameters.commit_key, &test_vec, &proof.opened_s) {
            Ok(c) => c,
            Err(_) => {
                return Err(stage_error("Single Value Product"));
            },
        };
        let rhs2 = g1_add(&g1_mul(&x, &proof.hi_commit), &proof.lo_commit);
        let check2 = g1_eq(&oc2, &rhs2);

        let check3 = fr_eq(&proof.opened_b[0], &proof.opened_a[0]);
        let check4 = fr_eq(&proof.opened_b[n - 1], &fr_mul(&x, &statement.b));

        if check1 && check2 && check3 && check4 {
            Ok(())
        } else {
            Err(stage_error("Single Value Product"))
        }
    }
}

/// The opened rows of an honest prover: `x a + d` and `x b + delta`.
pub open spec fn svp_opened(vs: Seq<int>, rs: Seq<int>, x: int, n: nat) -> Seq<int> {
    Seq::new(n, |i: int| fadd(fmul(x, vs[i]), rs[i]))
}

/// The low-order derived vector of an honest prover:
/// `-delta[i] d[i+1]`, zero-padded.
pub open spec fn svp_lo_seq(d: Seq<int>, delta: Seq<int>, n: nat) -> Seq<int> {
    Seq::new(
        n,
        |i: int|
            if i < n - 1 {
                fneg(fmul(delta[i], d[i + 1]))
            } else {
                0int
            },
    )
}

/// The linear derived vector of an honest prover:
/// `delta[i+1] - a[i+1] delta[i] - b[i] d[i+1]`, zero-padded.
pub open spec fn svp_hi_seq(a: Seq<int>, bp: Seq<int>, d: Seq<int>, delta: Seq<int>, n: nat) -> Seq<
    int,
> {
    Seq::new(
        n,
        |i: int|
            if i < n - 1 {
                fsub(fsub(delta[i + 1], fmul(a[i + 1], delta[i])), fmul(bp[i], d[i + 1]))
            } else {
                0int
            },
    )
}

/// The per-index algebra behind the verifier's second check: with
/// `b1 == b * a1`, the quadratic terms of
/// `x (x b1 + e1) - (x b + e)(x a1 + f1)` cancel and what is left is
/// `x` times the linear derived entry plus the low-order entry.
proof fn lemma_svp_index(x: int, b: int, a1: int, f1: int, e: int, e1: int)
    ensures
        fsub(fmul(x, fadd(fmul(x, fmul(b, a1)), e1)), fmul(fadd(fmul(x, b), e), fadd(fmul(x, a1), f1)))
            == fadd(fmul(x, fsub(fsub(e1, fmul(a1, e)), fmul(b, f1))), fneg(fmul(e, f1))),
{
    crate::zq::lemma_q_pos();
    let qq = q();
    let b1 = fmul(b, a1);
    // Left side as one reduced polynomial in the already-reduced b1.
    assert(fmul(x, fadd(fmul(x, b1), e1)) == (x * (x * b1 + e1)) % qq) by {
        crate::zq::lemma_fadd_mod_noop(x * b1, e1);
        crate::zq::lemma_fmul_mod_noop(x, x * b1 + e1);
    }
    assert(fmul(fadd(fmul(x, b), e), fadd(fmul(x, a1), f1)) == ((x * b + e) * (x * a1 + f1)) % qq)
        by {
        crate::zq::lemma_fadd_mod_noop(x * b, e);
        crate::zq::lemma_fadd_mod_noop(x * a1, f1);
        crate::zq::lemma_fmul_mod_noop(x * b + e, x * a1 + f1);
    }
    let left_poly = x * (x * b1 + e1) - (x * b + e) * (x * a1 + f1);
    assert(fsub(fmul(x, fadd(fmul(x, b1), e1)), fmul(fadd(fmul(x, b), e), fadd(fmul(x, a1), f1)))
        == left_poly % qq) by {
        crate::zq::lemma_fsub_mod_noop(x * (x * b1 + e1), (x * b + e) * (x * a1 + f1));
    }
    // Right side as one reduced polynomial.
    assert(fsub(fsub(e1, fmul(a1, e)), fmul(b, f1)) == (e1 - a1 * e - b * f1) % qq) by {
        crate::zq::lemma_fmul_mod_noop(a1, e);
        crate::zq::lemma_fsub_mod_noop(e1, a1 * e);
        crate::zq::lemma_fmul_mod_noop(b, f1);
        crate::zq::lemma_fsub_mod_noop(e1 - a1 * e, b * f1);
    }
    let right_poly = x * (e1 - a1 * e - b * f1) + (0 - e * f1);
    assert(fadd(fmul(x, fsub(fsub(e1, fmul(a1, e)), fmul(b, f1))), fneg(fmul(e, f1)))
        == right_poly % qq) by {
        crate::zq::lemma_fmul_mod_noop(x, e1 - a1 * e - b * f1);
        assert(fneg(fmul(e, f1)) == (0 - e * f1) % qq) by {
            crate::zq::lemma_fsub_mod_noop(0, e * f1);
        }
        crate::zq::lemma_fadd_mod_noop(x * (e1 - a1 * e - b * f1), 0 - e * f1);
    }
    // The two polynomials differ by a multiple of the modulus coming from
    // the reduction inside b1.
    let t = (b * a1) / qq;
    vstd::arithmetic::div_mod::lemma_fundamental_div_mod(b * a1, qq);
    assert(b1 == b * a1 - qq * t);
    assert(x * (x * b1 + e1) == x * x * (b * a1) - qq * (x * x * t) + x * e1) by (nonlinear_arith)
        requires
            b1 == b * a1 - qq * t,
    ;
    assert((x * b + e) * (x * a1 + f1) == x * x * (b * a1) + x * (b * f1) + x * (a1 * e) + e * f1)
        by {
        vstd::arithmetic::mul::lemma_mul_is_distributive_add_other_way(x * a1 + f1, x * b, e);
        vstd::arithmetic::mul::lemma_mul_is_distributive_add(x * b, x * a1, f1);
        vstd::arithmetic::mul::lemma_mul_is_distributive_add(e, x * a1, f1);
        assert((x * b) * (x * a1) == x * x * (b * a1)) by (nonlinear_arith);
        assert((x * b) * f1 == x * (b * f1)) by (nonlinear_arith);
        assert(e * (x * a1) == x * (a1 * e)) by (nonlinear_arith);
    }
    assert(right_poly == x * e1 - x * (a1 * e) - x * (b * f1) - e * f1) by (nonlinear_arith)
        requires
            right_poly == x * (e1 - a1 * e - b * f1) + (0 - e * f1),
    ;
    assert(qq * ((0 - x * x) * t) == 0 - qq * (x * x * t)) by (nonlinear_arith);
    assert(left_poly == right_poly + qq * ((0 - x * x) * t));
    assert((right_poly + qq * ((0 - x * x) * t)) % qq == right_poly % qq) by {
        vstd::arithmetic::div_mod::lemma_mod_multiples_vanish((0 - x * x) * t, right_poly, qq);
    }
}

/// Completeness of the argument: an honest prover's opened values pass
/// every verifier check, whatever the challenge.  The partial products
/// `bp` start at the first committed entry and multiply up, the derived
/// vectors are built as the prover builds them, and the opened rows are
/// the challenge combinations.
pub proof fn lemma_svp_completeness(
    hk: int,
    gs: Seq<int>,
    a: Seq<int>,
    bp: Seq<int>,
    d: Seq<int>,
    delta: Seq<int>,
    r: int,
    rd: int,
    slo: int,
    shi: int,
    x: int,
)
    requires
        gs.len() >= 2,
        a.len() == gs.len(),
        bp.len() == gs.len(),
        d.len() == gs.len(),
        delta.len() == gs.len(),
        forall|i: int| 0 <= i < gs.len() ==> in_f(#[trigger] bp[i]),
        bp[0] == a[0],
        forall|i: int| 1 <= i < gs.len() ==> bp[i] == fmul(bp[i - 1], a[i]),
        delta[0] == d[0],
        delta[gs.len() - 1] == 0,
    ensures
        svp_accepts(
            hk,
            gs,
            com(hk, gs, a, r),
            bp[gs.len() - 1],
            com(hk, gs, d, rd),
            com(hk, gs, svp_lo_seq(d, delta, gs.len()), slo),
            com(hk, gs, svp_hi_seq(a, bp, d, delta, gs.len()), shi),
            svp_opened(a, d, x, gs.len()),
            svp_opened(bp, delta, x, gs.len()),
            fadd(fmul(x, r), rd),
            fadd(fmul(x, shi), slo),
            x,
        ),
{
    crate::zq::lemma_q_pos();
    let n = gs.len();
    let at = svp_opened(a, d, x, n);
    let bt = svp_opened(bp, delta, x, n);
    let lo = svp_lo_seq(d, delta, n);
    let hi = svp_hi_seq(a, bp, d, delta, n);

    // First check: the opened row against the challenge combination of
    // the two commitments.
    crate::pedersen::lemma_commit_linear(hk, gs, a, d, at, r, rd, x);

    // Second check: the verifier's derived vector is the challenge
    // combination of the two derived vectors.
    let test = svp_test_seq(at, bt, x, n);
    assert forall|i: int| 0 <= i < n implies test[i] == fadd(fmul(x, hi[i]), lo[i]) by {
        if i < n - 1 {
            lemma_svp_index(x, bp[i], a[i + 1], d[i + 1], delta[i], delta[i + 1]);
            assert(bp[i + 1] == fmul(bp[i], a[i + 1]));
        } else {
            crate::zq::lemma_fmul_zero(x);
            vstd::arithmetic::div_mod::lemma_small_mod(0nat, q() as nat);
        }
    }
    crate::pedersen::lemma_commit_linear(hk, gs, hi, lo, test, shi, slo, x);

    // Third check: the first opened entries agree because the first
    // partial product is the first entry and the first masks agree.
    assert(bt[0] == at[0]);

    // Fourth check: the last opened partial product is the challenge times
    // the claimed product, because its mask is zero.
    assert(bt[n - 1] == fmul(x, bp[n - 1])) by {
        crate::zq::lemma_fmul_in_f(x, bp[n - 1]);
        crate::zq::lemma_fadd_zero(fmul(x, bp[n - 1]));
    }
}

/// Completeness, end to end: committing to a vector, proving that its
/// entries multiply to their product, and verifying that proof against an
/// identically seeded transcript always accepts.  The `Ok` result follows
/// from the contracts of [`SingleValueProductArgument::prove`] and
/// [`SingleValueProductArgument::verify`] alone.
pub fn prove_and_verify_product(
    rng: &mut Sampler,
    key: CommitKey,
    a: Vec<ark_bn254::Fr>,
    r: ark_bn254::Fr,
    seed: &Vec<u8>,
) -> (res: Result<(), CryptoError>)
    requires
        key.spec_len() >= 2,
        a@.len() == key.spec_len(),
        forall|i: int| 0 <= i < a@.len() ==> in_f(#[trigger] vals(a@)[i]),
    ensures
        res is Ok,
{
    let key_copy = CommitKey {
        h: crate::group::g1_copy(&key.h),
        gs: crate::arguments::hadamard::dup_points(&key.gs),
    };

    // The honest product of the entries.
    let mut b = fr_copy(&a[0]);
    let mut i: usize = 1;
    while i < a.len()
        invariant
            1 <= i <= a@.len(),
            a@.len() >= 2,
            fr_val(b) == svp_prod(vals(a@), i as nat),
        decreases a@.len() - i,
    {
        b = fr_mul(&b, &a[i]);
        proof {
            assert(vals(a@)[i as int] == fr_val(a@[i as int]));
            assert(svp_prod(vals(a@), (i + 1) as nat) == fmul(
                svp_prod(vals(a@), i as nat),
                vals(a@)[i as int],
            ));
        }
        i = i + 1;
    }
    let a_commit = match commit(&key, &a, &r) {
        Ok(c) => c,
        Err(e) => {
            return Err(e);
        },
    };
    let n = key.len();
    let parameters = Parameters::new(n, key);
    let statement = Statement::new(a_commit, b);
    let witness = Witness::new(a, r);
    let mut prover_transcript = Transcript::new(seed);
    let proof = match SingleValueProductArgument::prove(
        rng,
        &parameters,
        &statement,
        &witness,
        &mut prover_transcript,
    ) {
        Ok(p) => p,
        Err(e) => {
            return Err(e);
        },
    };
    let verifier_parameters = Parameters::new(n, key_copy);
    let mut verifier_transcript = Transcript::new(seed);
    SingleValueProductArgument::verify(
        &verifier_parameters,
        &statement,
        &proof,
        &mut verifier_transcript,
    )
}

} // verus!
