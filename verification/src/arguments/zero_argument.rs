//! The zero argument.
//!
//! Parameterized by the bilinear map `a * b = sum_j a_j b_j y^(j+1)` over
//! vectors of length `n`, it proves, for committed rows `a_1..a_m` and
//! `b_1..b_m`, that `sum_i a_i * b_i == 0`.  The prover commits to random
//! edge rows `a_0` and `b_(m+1)` and to the coefficients `d_k` of the
//! degree-2m polynomial `(sum x^i a_i) * (sum x^(m+1-j) b_j)`, whose
//! coefficient at `m+1` is the claimed zero sum and is committed with a zero
//! blinder; after the challenge `x` the prover opens both combined rows and
//! the combined blinders, and the verifier checks three commitment
//! identities.

use vstd::prelude::*;

use crate::algebra::psum;
use crate::error::{is_stage_err, stage_error, CryptoError};
use crate::group::{
    dlog, fr_add, fr_copy, fr_mul, fr_one, fr_rand, fr_val, fr_zero, g1_copy, g1_eq, GroupElem,
    Sampler, ser_fr, ser_g1,
};
use crate::matrix::{
    pad_first, pad_first_vector, pts, scalar_powers, vals, vec_add, vec_dup, vec_scale, vec_slice,
    zero_seq, zero_vector,
};
use crate::pedersen::{com, commit, CommitKey};
use crate::sampling::sample_vector;
use crate::transcript::{chal_at, ser_points, Transcript};
use crate::zq::{fadd, fmul, fpow, in_f};

verus! {

/// The bilinear map over the first `k` slots: `sum_j us[j] vs[j] y^(j+1)`.
pub open spec fn bil(us: Seq<int>, vs: Seq<int>, y: int, k: nat) -> int
    decreases k,
{
    if k == 0 {
        0
    } else {
        fadd(bil(us, vs, y, (k - 1) as nat), fmul(fmul(us[k - 1], vs[k - 1]), fpow(y, k)))
    }
}

/// Evaluate the bilinear map on two scalar vectors.
pub fn bilinear_map(
    u: &Vec<ark_bn254::Fr>,
    v: &Vec<ark_bn254::Fr>,
    y: &ark_bn254::Fr,
) -> (r: ark_bn254::Fr)
    requires
        u@.len() == v@.len(),
    ensures
        fr_val(r) == bil(vals(u@), vals(v@), fr_val(*y), u@.len()),
        in_f(fr_val(r)),
{
    let mut acc = fr_zero();
    let mut ypow = fr_mul(y, &fr_one());
    proof {
        crate::zq::lemma_q_pos();
        assert(fpow(fr_val(*y), 1nat) == fmul(fr_val(*y), fpow(fr_val(*y), 0nat)));
    }
    let mut i: usize = 0;
    while i < u.len()
        invariant
            i <= u@.len(),
            u@.len() == v@.len(),
            fr_val(ypow) == fpow(fr_val(*y), (i + 1) as nat),
            fr_val(acc) == bil(vals(u@), vals(v@), fr_val(*y), i as nat),
            in_f(fr_val(acc)),
        decreases u@.len() - i,
    {
        let term = fr_mul(&fr_mul(&u[i], &v[i]), &ypow);
        let next = fr_add(&acc, &term);
        proof {
            crate::zq::lemma_canonical_mod(fadd(fr_val(acc), fr_val(term)));
        }
        acc = next;
        ypow = fr_mul(y, &ypow);
        proof {
            assert(fpow(fr_val(*y), (i + 2) as nat) == fmul(
                fr_val(*y),
                fpow(fr_val(*y), (i + 1) as nat),
            ));
        }
        i = i + 1;
    }
    acc
}

/// Parameters: the commit key.
pub struct Parameters {
    pub commit_key: CommitKey,
}

impl Parameters {
    pub fn new(commit_key: CommitKey) -> (r: Parameters)
        ensures
            r.commit_key == commit_key,
    {
        Parameters { commit_key }
    }
}

/// Statement: the row commitments of both matrices and the weight of the
/// bilinear map.
pub struct Statement {
    pub a_commits: Vec<GroupElem>,
    pub b_commits: Vec<GroupElem>,
    pub y: ark_bn254::Fr,
}

impl Statement {
    pub fn new(a_commits: Vec<GroupElem>, b_commits: Vec<GroupElem>, y: ark_bn254::Fr) -> (r:
        Statement)
        ensures
            r.a_commits == a_commits,
            r.b_commits == b_commits,
            r.y == y,
    {
        Statement { a_commits, b_commits, y }
    }

    pub open spec fn well_formed(&self) -> bool {
        &&& self.a_commits@.len() >= 1
        &&& self.b_commits@.len() == self.a_commits@.len()
        &&& 3 * self.a_commits@.len() + 3 <= usize::MAX
    }

    pub fn check_well_formed(&self) -> (r: bool)
        ensures
            r <==> self.well_formed(),
    {
        let m = self.a_commits.len();
        if m == 0 || self.b_commits.len() != m {
            return false;
        }
        if m > (usize::MAX - 3) / 3 {
            proof {
                assert(3 * (((usize::MAX - 3) / 3) as int) <= usize::MAX - 3) by (nonlinear_arith);
            }
            return false;
        }
        proof {
            assert(m <= (usize::MAX - 3) / 3 ==> 3 * (m as int) + 3 <= usize::MAX)
                by (nonlinear_arith);
        }
        true
    }
}

/// Witness: the rows of both matrices and the blinders of their
/// commitments.
pub struct Witness {
    pub a_rows: Vec<Vec<ark_bn254::Fr>>,
    pub a_blinders: Vec<ark_bn254::Fr>,
    pub b_rows: Vec<Vec<ark_bn254::Fr>>,
    pub b_blinders: Vec<ark_bn254::Fr>,
}

impl Witness {
    pub fn new(
        a_rows: Vec<Vec<ark_bn254::Fr>>,
        a_blinders: Vec<ark_bn254::Fr>,
        b_rows: Vec<Vec<ark_bn254::Fr>>,
        b_blinders: Vec<ark_bn254::Fr>,
    ) -> (r: Witness)
        ensures
            r.a_rows == a_rows,
            r.a_blinders == a_blinders,
            r.b_rows == b_rows,
            r.b_blinders == b_blinders,
    {
        Witness { a_rows, a_blinders, b_rows, b_blinders }
    }

    pub open spec fn well_formed(&self, m: nat, n: nat) -> bool {
        &&& self.a_rows@.len() == m
        &&& self.a_blinders@.len() == m
        &&& self.b_rows@.len() == m
        &&& self.b_blinders@.len() == m
        &&& forall|i: int| 0 <= i < m ==> (#[trigger] self.a_rows@[i])@.len() == n
        &&& forall|i: int| 0 <= i < m ==> (#[trigger] self.b_rows@[i])@.len() == n
    }

    pub fn check_well_formed(&self, m: usize, n: usize) -> (r: bool)
        ensures
            r <==> self.well_formed(m as nat, n as nat),
    {
        if self.a_rows.len() != m || self.a_blinders.len() != m || self.b_rows.len() != m
            || self.b_blinders.len() != m {
            return false;
        }
        let mut i: usize = 0;
        let mut ok = true;
        while i < m
            invariant
                i <= m,
                m == self.a_rows@.len(),
                m == self.b_rows@.len(),
                ok <==> ((forall|j: int| 0 <= j < i ==> (#[trigger] self.a_rows@[j])@.len() == n)
                    && (forall|j: int| 0 <= j < i ==> (#[trigger] self.b_rows@[j])@.len() == n)),
            decreases m - i,
        {
            if self.a_rows[i].len() != n || self.b_rows[i].len() != n {
                ok = false;
            }
            i = i + 1;
        }
        ok
    }
}

/// A zero-argument proof.
pub struct Proof {
    pub a0_commit: GroupElem,
    pub bm1_commit: GroupElem,
    pub d_commits: Vec<GroupElem>,
    pub opened_a: Vec<ark_bn254::Fr>,
    pub opened_r: ark_bn254::Fr,
    pub opened_b: Vec<ark_bn254::Fr>,
    pub opened_s: ark_bn254::Fr,
    pub opened_t: ark_bn254::Fr,
}

/// The proof has the component counts the verifier expects.
pub open spec fn proof_shaped(p: Proof, m: nat, n: nat) -> bool {
    &&& p.d_commits@.len() == 2 * m + 1
    &&& p.opened_a@.len() == n
    &&& p.opened_b@.len() == n
}

/// The challenge: drawn after absorbing the statement and the prover's
/// first-move messages.
pub open spec fn za_challenge(
    hist0: Seq<Seq<u8>>,
    ca: Seq<int>,
    cb: Seq<int>,
    y: int,
    a0c: int,
    bm1c: int,
    dcs: Seq<int>,
) -> int {
    chal_at(
        hist0 + seq![
            ser_points(ca),
            ser_points(cb),
            ser_fr(y),
            ser_g1(a0c),
            ser_g1(bm1c),
            ser_points(dcs),
        ],
        0,
    )
}

/// The transcript contents after the argument has run: the six absorbed
/// messages, with one challenge drawn.
pub open spec fn za_final_hist(
    hist0: Seq<Seq<u8>>,
    ca: Seq<int>,
    cb: Seq<int>,
    y: int,
    a0c: int,
    bm1c: int,
    dcs: Seq<int>,
) -> Seq<Seq<u8>> {
    hist0 + seq![
        ser_points(ca),
        ser_points(cb),
        ser_fr(y),
        ser_g1(a0c),
        ser_g1(bm1c),
        ser_points(dcs),
    ]
}

/// The verifier's checks over the model.
pub open spec fn za_accepts(
    hk: int,
    gs: Seq<int>,
    ca: Seq<int>,
    cb: Seq<int>,
    y: int,
    a0c: int,
    bm1c: int,
    dcs: Seq<int>,
    oa: Seq<int>,
    or_: int,
    ob: Seq<int>,
    os: int,
    ot: int,
    x: int,
) -> bool {
    let m = ca.len();
    let n = gs.len();
    &&& dcs[m as int + 1] == com(hk, gs, zero_seq(n), 0)
    &&& com(hk, gs, oa, or_) == psum(
        seq![a0c] + ca,
        Seq::new(m + 1, |i: int| fpow(x, i as nat)),
        m + 1,
    )
    &&& com(hk, gs, ob, os) == psum(
        cb + seq![bm1c],
        Seq::new(m + 1, |l: int| fpow(x, (m - l) as nat)),
        m + 1,
    )
    &&& com(hk, gs, pad_first(bil(oa, ob, y, n), n), ot) == psum(
        dcs,
        Seq::new(2 * m + 1, |k: int| fpow(x, k as nat)),
        2 * m + 1,
    )
}

/// The first masking row the prover samples: the first `n` scalar draws.
pub open spec fn za_a0_row(s0: nat, n: nat) -> Seq<int> {
    Seq::new(n, |i: int| crate::sampling::fr_stream_val(s0, i as nat))
}

/// The second masking row: drawn after the first row and its blinder.
pub open spec fn za_bext_row(s0: nat, n: nat) -> Seq<int> {
    Seq::new(
        n,
        |i: int|
            crate::sampling::fr_stream_val(
                crate::sampling::fr_stream_state(s0, (n + 1) as nat),
                i as nat,
            ),
    )
}

/// The `k`-th coefficient blinder: a fresh draw, except the center slot,
/// which is zero.
pub open spec fn za_t_at(s0: nat, n: nat, m: nat, k: int) -> int {
    if k == m + 1 {
        0
    } else {
        crate::sampling::fr_stream_val(
            crate::sampling::fr_stream_state(s0, (2 * n + 2) as nat),
            k as nat,
        )
    }
}

/// The witness rows as canonical values.
pub open spec fn za_a_rows(w: Witness) -> Seq<Seq<int>> {
    w.a_rows@.map(|i: int, row: Vec<ark_bn254::Fr>| vals(row@))
}

pub open spec fn za_b_rows(w: Witness) -> Seq<Seq<int>> {
    w.b_rows@.map(|i: int, row: Vec<ark_bn254::Fr>| vals(row@))
}

/// The extended first-side rows: the masking row first.
pub open spec fn za_aext(s0: nat, n: nat, wa: Seq<Seq<int>>, i: int) -> Seq<int> {
    if i == 0 {
        za_a0_row(s0, n)
    } else {
        wa[i - 1]
    }
}

/// The extended second-side rows: the masking row last.
pub open spec fn za_bext(s0: nat, n: nat, wb: Seq<Seq<int>>, m: nat, j: int) -> Seq<int> {
    if j == m + 1 {
        za_bext_row(s0, n)
    } else {
        wb[j - 1]
    }
}

/// The `k`-th polynomial coefficient, accumulated over the first `cnt`
/// first-side indices: index `i` pairs with second-side index
/// `m + 1 + i - k` when that lands in range.
pub open spec fn za_dk(
    s0: nat,
    n: nat,
    wa: Seq<Seq<int>>,
    wb: Seq<Seq<int>>,
    m: nat,
    y: int,
    k: int,
    cnt: nat,
) -> int
    decreases cnt,
{
    if cnt == 0 {
        0
    } else {
        let prev = za_dk(s0, n, wa, wb, m, y, k, (cnt - 1) as nat);
        let i = cnt - 1;
        if m + 1 + i >= k + 1 && m + 1 + i <= k + m + 1 {
            fadd(prev, bil(za_aext(s0, n, wa, i), za_bext(s0, n, wb, m, m + 1 + i - k), y, n))
        } else {
            prev
        }
    }
}

/// The opened first-side row after folding in the first `j` witness rows.
pub open spec fn za_comb_a(s0: nat, n: nat, wa: Seq<Seq<int>>, x: int, j: nat) -> Seq<int>
    decreases j,
{
    if j == 0 {
        za_a0_row(s0, n)
    } else {
        let prev = za_comb_a(s0, n, wa, x, (j - 1) as nat);
        Seq::new(n, |i: int| fadd(prev[i], fmul(fpow(x, j), wa[j - 1][i])))
    }
}

/// The matching opened blinder.
pub open spec fn za_comb_r(s0: nat, n: nat, blinds: Seq<int>, x: int, j: nat) -> int
    decreases j,
{
    if j == 0 {
        crate::sampling::fr_stream_val(s0, n)
    } else {
        fadd(za_comb_r(s0, n, blinds, x, (j - 1) as nat), fmul(fpow(x, j), blinds[j - 1]))
    }
}

/// The opened second-side row after folding in the first `j` witness rows,
/// with descending challenge powers.
pub open spec fn za_comb_b(s0: nat, n: nat, wb: Seq<Seq<int>>, m: nat, x: int, j: nat) -> Seq<int>
    decreases j,
{
    if j == 0 {
        za_bext_row(s0, n)
    } else {
        let prev = za_comb_b(s0, n, wb, m, x, (j - 1) as nat);
        Seq::new(n, |i: int| fadd(prev[i], fmul(fpow(x, (m + 1 - j) as nat), wb[j - 1][i])))
    }
}

/// The matching opened blinder.
pub open spec fn za_comb_s(s0: nat, n: nat, blinds: Seq<int>, m: nat, x: int, j: nat) -> int
    decreases j,
{
    if j == 0 {
        crate::sampling::fr_stream_val(s0, (2 * n + 1) as nat)
    } else {
        fadd(
            za_comb_s(s0, n, blinds, m, x, (j - 1) as nat),
            fmul(fpow(x, (m + 1 - j) as nat), blinds[j - 1]),
        )
    }
}

/// The argument.
pub struct ZeroArgument;

impl ZeroArgument {
    /// Produce a proof.  Succeeds exactly when the statement and witness
    /// dimensions agree with the commit key.
    pub fn prove(
        rng: &mut Sampler,
        parameters: &Parameters,
        statement: &Statement,
        witness: &Witness,
        t: &mut Transcript,
    ) -> (res: Result<Proof, CryptoError>)
        ensures
            (statement.well_formed() && parameters.commit_key.spec_len() >= 1
                && witness.well_formed(
                statement.a_commits@.len(),
                parameters.commit_key.spec_len(),
            )) <==> res is Ok,
            res matches Ok(p) ==> proof_shaped(
                p,
                statement.a_commits@.len(),
                parameters.commit_key.spec_len(),
            ),
            res matches Ok(p) ==> final(t).hist() =~= za_final_hist(
                old(t).hist(),
                pts(statement.a_commits@),
                pts(statement.b_commits@),
                fr_val(statement.y),
                dlog(p.a0_commit),
                dlog(p.bm1_commit),
                pts(p.d_commits@),
            ) && final(t).draws() == 1,
            res is Ok ==> final(rng)@ == crate::sampling::fr_stream_state(
                old(rng)@,
                (2 * parameters.commit_key.spec_len() + 2 * statement.a_commits@.len() + 3) as nat,
            ),
            res matches Ok(p) ==> ({
                let s0r = old(rng)@;
                let nn = parameters.commit_key.spec_len();
                let mm = statement.a_commits@.len();
                let hk = dlog(parameters.commit_key.h);
                let gs = parameters.commit_key.gs_vals();
                let yv = fr_val(statement.y);
                let xch = za_challenge(
                    old(t).hist(),
                    pts(statement.a_commits@),
                    pts(statement.b_commits@),
                    yv,
                    dlog(p.a0_commit),
                    dlog(p.bm1_commit),
                    pts(p.d_commits@),
                );
                &&& dlog(p.a0_commit) == com(
                    hk,
                    gs,
                    za_a0_row(s0r, nn),
                    crate::sampling::fr_stream_val(s0r, nn),
                )
                &&& dlog(p.bm1_commit) == com(
                    hk,
                    gs,
                    za_bext_row(s0r, nn),
                    crate::sampling::fr_stream_val(s0r, (2 * nn + 1) as nat),
                )
                &&& forall|k: int|
                    0 <= k < 2 * mm + 1 ==> dlog(#[trigger] p.d_commits@[k]) == com(
                        hk,
                        gs,
                        pad_first(
                            za_dk(
                                s0r,
                                nn,
                                za_a_rows(*witness),
                                za_b_rows(*witness),
                                mm,
                                yv,
                                k,
                                (mm + 1) as nat,
                            ),
                            nn,
                        ),
                        za_t_at(s0r, nn, mm, k),
                    )
                &&& vals(p.opened_a@) == za_comb_a(s0r, nn, za_a_rows(*witness), xch, mm)
                &&& fr_val(p.opened_r) == za_comb_r(
                    s0r,
                    nn,
                    vals(witness.a_blinders@),
                    xch,
                    mm,
                )
                &&& vals(p.opened_b@) == za_comb_b(s0r, nn, za_b_rows(*witness), mm, xch, mm)
                &&& fr_val(p.opened_s) == za_comb_s(
                    s0r,
                    nn,
                    vals(witness.b_blinders@),
                    mm,
                    xch,
                    mm,
                )
                &&& fr_val(p.opened_t) == psum(
                    Seq::new((2 * mm + 1) as nat, |k: int| za_t_at(s0r, nn, mm, k)),
                    Seq::new((2 * mm + 1) as nat, |k: int| fpow(xch, k as nat)),
                    (2 * mm + 1) as nat,
                )
            }),
            res is Err ==> is_stage_err(res, "Zero"@),
    {
        let ghost hist0 = t.hist();
        let ghost s0 = rng@;
        let n = parameters.commit_key.len();
        let m = statement.a_commits.len();
        if !statement.check_well_formed() || n == 0 {
            return Err(stage_error("Zero"));
        }
        if !witness.check_well_formed(m, n) {
            return Err(stage_error("Zero"));
        }

        let ghost wa = za_a_rows(*witness);
        let ghost wb = za_b_rows(*witness);
        let ghost yv = fr_val(statement.y);
        proof {
            assert forall|l: int| 0 <= l < m implies #[trigger] wa[l] == vals(
                witness.a_rows@[l]@,
            ) by {}
            assert forall|l: int| 0 <= l < m implies #[trigger] wb[l] == vals(
                witness.b_rows@[l]@,
            ) by {}
        }
        let a0 = sample_vector(rng, n);
        let r0 = fr_rand(rng);
        let bext = sample_vector(rng, n);
        let s_ext = fr_rand(rng);
        proof {
            crate::sampling::lemma_fr_stream_compose(s0, n as nat, 1);
            assert(vals(a0@) =~= za_a0_row(s0, n as nat));
            assert(vals(bext@) =~= za_bext_row(s0, n as nat));
            crate::sampling::lemma_fr_stream_compose(s0, (n + 1) as nat, n as nat);
        }
        let a0_commit = match commit(&parameters.commit_key, &a0, &r0) {
            Ok(c) => c,
            Err(_) => {
                return Err(stage_error("Zero"));
            },
        };
        let bm1_commit = match commit(&parameters.commit_key, &bext, &s_ext) {
            Ok(c) => c,
            Err(_) => {
                return Err(stage_error("Zero"));
            },
        };

        let count = 2 * m + 1;
        let mut ts = sample_vector(rng, count);
        proof {
            crate::sampling::lemma_fr_stream_compose(s0, n as nat, 1);
            crate::sampling::lemma_fr_stream_compose(s0, (n + 1) as nat, n as nat);
            crate::sampling::lemma_fr_stream_compose(s0, (2 * n + 1) as nat, 1);
            crate::sampling::lemma_fr_stream_compose(s0, (2 * n + 2) as nat, count as nat);
        }
        ts[m + 1] = fr_zero();
        let ghost tseq = Seq::new(count as nat, |k: int| za_t_at(s0, n as nat, m as nat, k));
        proof {
            assert(vals(ts@) =~= tseq);
        }
        let ghost hk = dlog(parameters.commit_key.h);
        let ghost gsv = parameters.commit_key.gs_vals();

        // The polynomial coefficients d_k: over pairs (i, j) with
        // i in 0..=m, j in 1..=m+1 and k = m + 1 + i - j.
        let mut d_commits: Vec<GroupElem> = Vec::new();
        let mut k: usize = 0;
        while k < count
            invariant
                k <= count,
                count == 2 * m + 1,
                m >= 1,
                3 * m + 3 <= usize::MAX,
                n == parameters.commit_key.spec_len(),
                n >= 1,
                hk == dlog(parameters.commit_key.h),
                gsv == parameters.commit_key.gs_vals(),
                m == witness.a_rows@.len(),
                m == witness.b_rows@.len(),
                witness.well_formed(m as nat, n as nat),
                wa == za_a_rows(*witness),
                wb == za_b_rows(*witness),
                yv == fr_val(statement.y),
                vals(a0@) == za_a0_row(s0, n as nat),
                vals(bext@) == za_bext_row(s0, n as nat),
                vals(ts@) == tseq,
                a0@.len() == n,
                bext@.len() == n,
                ts@.len() == count,
                d_commits@.len() == k,
                forall|l: int|
                    0 <= l < k ==> dlog(#[trigger] d_commits@[l]) == com(
                        hk,
                        gsv,
                        pad_first(
                            za_dk(s0, n as nat, wa, wb, m as nat, yv, l, (m + 1) as nat),
                            n as nat,
                        ),
                        tseq[l],
                    ),
            decreases count - k,
        {
            let mut dk = fr_zero();
            let mut i: usize = 0;
            while i <= m
                invariant
                    i <= m + 1,
                    k < count,
                    count == 2 * m + 1,
                    m >= 1,
                    3 * m + 3 <= usize::MAX,
                    m == witness.a_rows@.len(),
                    m == witness.b_rows@.len(),
                    witness.well_formed(m as nat, n as nat),
                    wa == za_a_rows(*witness),
                    wb == za_b_rows(*witness),
                    yv == fr_val(statement.y),
                    vals(a0@) == za_a0_row(s0, n as nat),
                    vals(bext@) == za_bext_row(s0, n as nat),
                    a0@.len() == n,
                    bext@.len() == n,
                    fr_val(dk) == za_dk(s0, n as nat, wa, wb, m as nat, yv, k as int, i as nat),
                decreases m + 1 - i,
            {
                // j = m + 1 + i - k, when it lands in 1..=m+1.
                if m + 1 + i >= k + 1 && m + 1 + i <= k + m + 1 {
                    let j = m + 1 + i - k;
                    let aref: &Vec<ark_bn254::Fr> = if i == 0 {
                        &a0
                    } else {
                        &witness.a_rows[i - 1]
                    };
                    let bref: &Vec<ark_bn254::Fr> = if j == m + 1 {
                        &bext
                    } else {
                        &witness.b_rows[j - 1]
                    };
                    let term = bilinear_map(aref, bref, &statement.y);
                    proof {
                        assert(vals(aref@) == za_aext(s0, n as nat, wa, i as int));
                        assert(vals(bref@) == za_bext(s0, n as nat, wb, m as nat, j as int));
                    }
                    dk = fr_add(&dk, &term);
                }
                i = i + 1;
            }
            let padded = pad_first_vector(&dk, n);
            let c = match commit(&parameters.commit_key, &padded, &ts[k]) {
                Ok(c) => c,
                Err(_) => {
                    return Err(stage_error("Zero"));
                },
            };
            proof {
                assert(tseq[k as int] == fr_val(ts@[k as int]));
            }
            d_commits.push(c);
            k = k + 1;
        }

        t.absorb_points(&statement.a_commits);
        t.absorb_points(&statement.b_commits);
        t.absorb_scalar(&statement.y);
        t.absorb_point(&a0_commit);
        t.absorb_point(&bm1_commit);
        t.absorb_points(&d_commits);
        proof {
            assert(t.hist() =~= hist0 + seq![
                ser_points(pts(statement.a_commits@)),
                ser_points(pts(statement.b_commits@)),
                ser_fr(fr_val(statement.y)),
                ser_g1(dlog(a0_commit)),
                ser_g1(dlog(bm1_commit)),
                ser_points(pts(d_commits@)),
            ]);
        }
        let x = t.challenge();
        let ghost xv = fr_val(x);
        let xs = scalar_powers(&x, count);

        // opened_a = sum_{i=0..m} x^i a_i, opened_r likewise.
        let mut opened_a = vec_dup(&a0);
        let mut opened_r = fr_copy(&r0);
        let ghost ablinds = vals(witness.a_blinders@);
        proof {
            assert(vals(opened_a@) =~= za_comb_a(s0, n as nat, wa, xv, 0));
        }
        let mut i: usize = 1;
        while i <= m
            invariant
                1 <= i <= m + 1,
                m >= 1,
                count == 2 * m + 1,
                m == witness.a_rows@.len(),
                m == witness.a_blinders@.len(),
                witness.well_formed(m as nat, n as nat),
                wa == za_a_rows(*witness),
                ablinds == vals(witness.a_blinders@),
                xv == fr_val(x),
                xs@.len() == count,
                forall|l: int| 0 <= l < count ==> fr_val(#[trigger] xs@[l]) == fpow(xv, l as nat),
                opened_a@.len() == n,
                vals(opened_a@) == za_comb_a(s0, n as nat, wa, xv, (i - 1) as nat),
                fr_val(opened_r) == za_comb_r(s0, n as nat, ablinds, xv, (i - 1) as nat),
            decreases m + 1 - i,
        {
            let scaled = vec_scale(&xs[i], &witness.a_rows[i - 1]);
            let ghost prev = vals(opened_a@);
            opened_a = vec_add(&opened_a, &scaled);
            proof {
                assert(wa[i - 1] == vals(witness.a_rows@[i - 1]@));
                assert forall|l: int| 0 <= l < n implies vals(opened_a@)[l] == fadd(
                    prev[l],
                    fmul(fpow(xv, i as nat), wa[i - 1][l]),
                ) by {
                    assert(vals(opened_a@)[l] == fr_val(opened_a@[l]));
                    assert(fr_val(scaled@[l]) == fmul(fr_val(xs@[i as int]), fr_val(
                        witness.a_rows@[i - 1]@[l],
                    )));
                    assert(wa[i - 1][l] == fr_val(witness.a_rows@[i - 1]@[l]));
                }
                assert(vals(opened_a@) =~= za_comb_a(s0, n as nat, wa, xv, i as nat));
            }
            opened_r = fr_add(&opened_r, &fr_mul(&xs[i], &witness.a_blinders[i - 1]));
            proof {
                assert(ablinds[i - 1] == fr_val(witness.a_blinders@[i - 1]));
                assert(fr_val(opened_r) == za_comb_r(s0, n as nat, ablinds, xv, i as nat));
            }
            i = i + 1;
        }

        // opened_b = sum_{j=1..m+1} x^(m+1-j) b_j, opened_s likewise.
        let mut opened_b = vec_dup(&bext);
        let mut opened_s = fr_copy(&s_ext);
        let ghost bblinds = vals(witness.b_blinders@);
        proof {
            assert(vals(opened_b@) =~= za_comb_b(s0, n as nat, wb, m as nat, xv, 0));
            crate::sampling::lemma_fr_stream_compose(s0, (2 * n + 1) as nat, 0);
        }
        let mut j: usize = 1;
        while j <= m
            invariant
                1 <= j <= m + 1,
                m >= 1,
                count == 2 * m + 1,
                m == witness.b_rows@.len(),
                m == witness.b_blinders@.len(),
                witness.well_formed(m as nat, n as nat),
                wb == za_b_rows(*witness),
                bblinds == vals(witness.b_blinders@),
                xv == fr_val(x),
                xs@.len() == count,
                forall|l: int| 0 <= l < count ==> fr_val(#[trigger] xs@[l]) == fpow(xv, l as nat),
                opened_b@.len() == n,
                vals(opened_b@) == za_comb_b(s0, n as nat, wb, m as nat, xv, (j - 1) as nat),
                fr_val(opened_s) == za_comb_s(s0, n as nat, bblinds, m as nat, xv, (j - 1) as nat),
            decreases m + 1 - j,
        {
            let scaled = vec_scale(&xs[m + 1 - j], &witness.b_rows[j - 1]);
            let ghost prev = vals(opened_b@);
            opened_b = vec_add(&opened_b, &scaled);
            proof {
                assert(wb[j - 1] == vals(witness.b_rows@[j - 1]@));
                assert forall|l: int| 0 <= l < n implies vals(opened_b@)[l] == fadd(
                    prev[l],
                    fmul(fpow(xv, (m + 1 - j) as nat), wb[j - 1][l]),
                ) by {
                    assert(vals(opened_b@)[l] == fr_val(opened_b@[l]));
                    assert(fr_val(scaled@[l]) == fmul(fr_val(xs@[m + 1 - j]), fr_val(
                        witness.b_rows@[j - 1]@[l],
                    )));
                    assert(wb[j - 1][l] == fr_val(witness.b_rows@[j - 1]@[l]));
                }
                assert(vals(opened_b@) =~= za_comb_b(s0, n as nat, wb, m as nat, xv, j as nat));
            }
            opened_s = fr_add(&opened_s, &fr_mul(&xs[m + 1 - j], &witness.b_blinders[j - 1]));
            proof {
                assert(bblinds[j - 1] == fr_val(witness.b_blinders@[j - 1]));
                assert(fr_val(opened_s) == za_comb_s(
                    s0,
                    n as nat,
                    bblinds,
                    m as nat,
                    xv,
                    j as nat,
                ));
            }
            j = j + 1;
        }

        let opened_t = crate::matrix::scalar_dot(&xs, &ts);
        proof {
            let xpows = Seq::new(count as nat, |k: int| fpow(xv, k as nat));
            assert(vals(xs@) =~= xpows);
            crate::algebra::lemma_psum_congruence(
                vals(ts@),
                vals(xs@),
                tseq,
                xpows,
                count as nat,
            );
        }

        Ok(Proof { a0_commit, bm1_commit, d_commits, opened_a, opened_r, opened_b, opened_s, opened_t })
    }

    /// Verify a proof.  Accepts exactly when the statement and proof are
    /// well shaped and every check of [`za_accepts`] holds for the
    /// challenge derived from the transcript.
    pub fn verify(
        parameters: &Parameters,
        statement: &Statement,
        proof: &Proof,
        t: &mut Transcript,
    ) -> (res: Result<(), CryptoError>)
        ensures
            res is Ok <==> (statement.well_formed() && parameters.commit_key.spec_len() >= 1
                && proof_shaped(
                *proof,
                statement.a_commits@.len(),
                parameters.commit_key.spec_len(),
            ) && za_accepts(
                dlog(parameters.commit_key.h),
                parameters.commit_key.gs_vals(),
                pts(statement.a_commits@),
                pts(statement.b_commits@),
                fr_val(statement.y),
                dlog(proof.a0_commit),
                dlog(proof.bm1_commit),
                pts(proof.d_commits@),
                vals(proof.opened_a@),
                fr_val(proof.opened_r),
                vals(proof.opened_b@),
                fr_val(proof.opened_s),
                fr_val(proof.opened_t),
                za_challenge(
                    old(t).hist(),
                    pts(statement.a_commits@),
                    pts(statement.b_commits@),
                    fr_val(statement.y),
                    dlog(proof.a0_commit),
                    dlog(proof.bm1_commit),
                    pts(proof.d_commits@),
                ),
            )),
            res is Ok ==> final(t).hist() =~= za_final_hist(
                old(t).hist(),
                pts(statement.a_commits@),
                pts(statement.b_commits@),
                fr_val(statement.y),
                dlog(proof.a0_commit),
                dlog(proof.bm1_commit),
                pts(proof.d_commits@),
            ) && final(t).draws() == 1,
            res is Err ==> is_stage_err(res, "Zero"@),
    {
        let ghost hist0 = t.hist();
        let n = parameters.commit_key.len();
        let m = statement.a_commits.len();
        if !statement.check_well_formed() || n == 0 {
            return Err(stage_error("Zero"));
        }
        let count = 2 * m + 1;
        if proof.d_commits.len() != count || proof.opened_a.len() != n || proof.opened_b.len()
            != n {
            return Err(stage_error("Zero"));
        }

        // The diagonal-slot commitment must open to zero with a zero
        // blinder.
        let zerovec = zero_vector(n);
        let zc = match commit(&parameters.commit_key, &zerovec, &fr_zero()) {
            Ok(c) => c,
            Err(_) => {
                return Err(stage_error("Zero"));
            },
        };
        let check_zero_slot = g1_eq(&proof.d_commits[m + 1], &zc);
        proof {
            assert(vals(zerovec@) =~= zero_seq(n as nat));
        }

        t.absorb_points(&statement.a_commits);
        t.absorb_points(&statement.b_commits);
        t.absorb_scalar(&statement.y);
        t.absorb_point(&proof.a0_commit);
        t.absorb_point(&proof.bm1_commit);
        t.absorb_points(&proof.d_commits);
        proof {
            assert(t.hist() =~= hist0 + seq![
                ser_points(pts(statement.a_commits@)),
                ser_points(pts(statement.b_commits@)),
                ser_fr(fr_val(statement.y)),
                ser_g1(dlog(proof.a0_commit)),
                ser_g1(dlog(proof.bm1_commit)),
                ser_points(pts(proof.d_commits@)),
            ]);
        }
        let x = t.challenge();
        let ghost xv = fr_val(x);
        let xs = scalar_powers(&x, count);

        // First identity: the opened a row against x-powers of the a
        // commitments, the random edge row first.
        let oc1 = match commit(&parameters.commit_key, &proof.opened_a, &proof.opened_r) {
            Ok(c) => c,
            Err(_) => {
                return Err(stage_error("Zero"));
            },
        };
        let mut apts: Vec<GroupElem> = Vec::new();
        apts.push(g1_copy(&proof.a0_commit));
        let mut i: usize = 0;
        while i < m
            invariant
                i <= m,
                m == statement.a_commits@.len(),
                apts@.len() == i + 1,
                apts@[0] == proof.a0_commit,
                forall|j: int| 1 <= j <= i ==> #[trigger] apts@[j] == statement.a_commits@[j - 1],
            decreases m - i,
        {
            apts.push(g1_copy(&statement.a_commits[i]));
            i = i + 1;
        }
        let xs_front = vec_slice(&xs, 0, m + 1);
        let rhs1 = crate::matrix::msm(&apts, &xs_front);
        let check1 = g1_eq(&oc1, &rhs1);
        proof {
            assert(pts(apts@) =~= seq![dlog(proof.a0_commit)] + pts(statement.a_commits@));
            assert(vals(xs_front@) =~= Seq::new((m + 1) as nat, |i: int| fpow(xv, i as nat)));
        }

        // Second identity: the opened b row against descending x-powers of
        // the b commitments, the random edge row last.
        let oc2 = match commit(&parameters.commit_key, &proof.opened_b, &proof.opened_s) {
            Ok(c) => c,
            Err(_) => {
                return Err(stage_error("Zero"));
            },
        };
        let mut bpts: Vec<GroupElem> = Vec::new();
        let mut i: usize = 0;
        while i < m
            invariant
                i <= m,
                m == statement.b_commits@.len(),
                bpts@.len() == i,
                forall|j: int| 0 <= j < i ==> #[trigger] bpts@[j] == statement.b_commits@[j],
            decreases m - i,
        {
            bpts.push(g1_copy(&statement.b_commits[i]));
            i = i + 1;
        }
        bpts.push(g1_copy(&proof.bm1_commit));
        let mut xs_desc: Vec<ark_bn254::Fr> = Vec::new();
        let mut l: usize = 0;
        while l <= m
            invariant
                l <= m + 1,
                count == 2 * m + 1,
                xs@.len() == count,
                forall|j: int| 0 <= j < count ==> fr_val(#[trigger] xs@[j]) == fpow(xv, j as nat),
                xs_desc@.len() == l,
                forall|j: int|
                    0 <= j < l ==> fr_val(#[trigger] xs_desc@[j]) == fpow(xv, (m - j) as nat),
            decreases m + 1 - l,
        {
            xs_desc.push(fr_copy(&xs[m - l]));
            l = l + 1;
        }
        let rhs2 = crate::matrix::msm(&bpts, &xs_desc);
        let check2 = g1_eq(&oc2, &rhs2);
        proof {
            assert(pts(bpts@) =~= pts(statement.b_commits@) + seq![dlog(proof.bm1_commit)]);
            assert(vals(xs_desc@) =~= Seq::new(
                (m + 1) as nat,
                |l: int| fpow(xv, (m - l) as nat),
            ));
        }

        // Third identity: the bilinear value of the opened rows against
        // x-powers of the coefficient commitments.
        let bval = bilinear_map(&proof.opened_a, &proof.opened_b, &statement.y);
        let padded = pad_first_vector(&bval, n);
        let oc3 = match commit(&parameters.commit_key, &padded, &proof.opened_t) {
            Ok(c) => c,
            Err(_) => {
                return Err(stage_error("Zero"));
            },
        };
        let rhs3 = crate::matrix::msm(&proof.d_commits, &xs);
        let check3 = g1_eq(&oc3, &rhs3);
        proof {
            assert(vals(xs@) =~= Seq::new((2 * m + 1) as nat, |k: int| fpow(xv, k as nat)));
            crate::algebra::lemma_psum_congruence(
                pts(proof.d_commits@),
                vals(xs@),
                pts(proof.d_commits@),
                Seq::new((2 * m + 1) as nat, |k: int| fpow(xv, k as nat)),
                (2 * m + 1) as nat,
            );
        }

        if check_zero_slot && check1 && check2 && check3 {
            Ok(())
        } else {
            Err(stage_error("Zero"))
        }
    }
}

} // verus!
