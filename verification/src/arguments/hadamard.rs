//! The Hadamard-product argument.
//!
//! Given commitments to rows `a_1..a_m` and a commitment to `b`, proves
//! that `b` is the component-wise product `a_1 o a_2 o ... o a_m`.  The
//! prover commits to the intermediate partial products `B_2..B_(m-1)`
//! (with `B_1 = a_1` and `B_m = b` standing behind the statement
//! commitments); challenges `x` and `y` then reduce the claim to a zero
//! argument over the pairs `(x^i B_i, a_(i+1))` together with the pair of
//! the combined row `sum x^i B_(i+1)` and the all-minus-one row, under the
//! bilinear map weighted by `y`.

use vstd::prelude::*;

use crate::algebra::psum;
use crate::arguments::zero_argument::{self, za_accepts, za_challenge, za_final_hist, ZeroArgument};
use crate::error::{is_stage_err, stage_error, CryptoError};
use crate::group::{
    dlog, fr_add, fr_copy, fr_mul, fr_neg, fr_one, fr_val, fr_zero, g1_copy, g1_mul, GroupElem,
    Sampler, ser_g1,
};
use crate::matrix::{msm, pts, scalar_powers, vals, vec_add, vec_dup, vec_scale, vec_slice};
use crate::pedersen::{com, commit, CommitKey};
use crate::sampling::sample_vector;
use crate::transcript::{chal_at, ser_points, Transcript};
use crate::zq::{fmul, fneg, fpow};

verus! {

/// The all-minus-one row.
pub open spec fn neg_ones(n: nat) -> Seq<int> {
    Seq::new(n, |i: int| fneg(1))
}

/// The full list of partial-product commitments: the first statement
/// commitment, the prover's middle commitments, and the product
/// commitment.
pub open spec fn cb_list(ca0: int, mids: Seq<int>, bc: int) -> Seq<int> {
    seq![ca0] + mids + seq![bc]
}

/// The first-side commitments of the reduced zero argument: `x^(l+1)`
/// times the `l`-th partial-product commitment for the first `m - 1` rows,
/// and the `x`-combination of the shifted partial-product commitments
/// last.
pub open spec fn dside(cbs: Seq<int>, x: int) -> Seq<int> {
    let m = cbs.len();
    Seq::new(
        m,
        |l: int|
            if l < m - 1 {
                fmul(fpow(x, (l + 1) as nat), cbs[l])
            } else {
                psum(
                    cbs.subrange(1, m as int),
                    Seq::new((m - 1) as nat, |i: int| fpow(x, (i + 1) as nat)),
                    (m - 1) as nat,
                )
            },
    )
}

/// The second-side commitments of the reduced zero argument: the statement
/// commitments from the second on, and the commitment to the
/// all-minus-one row with a zero blinder last.
pub open spec fn bside(hk: int, gs: Seq<int>, ca: Seq<int>) -> Seq<int> {
    ca.subrange(1, ca.len() as int) + seq![com(hk, gs, neg_ones(gs.len()), 0)]
}

/// The two challenges: drawn back to back after absorbing the statement
/// and the middle commitments.
pub open spec fn ha_hist(hist0: Seq<Seq<u8>>, ca: Seq<int>, bc: int, mids: Seq<int>) -> Seq<
    Seq<u8>,
> {
    hist0 + seq![ser_points(ca), ser_g1(bc), ser_points(mids)]
}

/// The transcript contents after the argument has run: the reduction's
/// messages followed by the zero argument's, with one challenge drawn.
pub open spec fn ha_final_hist(
    hist0: Seq<Seq<u8>>,
    ca: Seq<int>,
    bc: int,
    mids: Seq<int>,
    hk: int,
    gs: Seq<int>,
    a0c: int,
    bm1c: int,
    dcs: Seq<int>,
) -> Seq<Seq<u8>> {
    let h1 = ha_hist(hist0, ca, bc, mids);
    za_final_hist(
        h1,
        dside(cb_list(ca[0], mids, bc), chal_at(h1, 0)),
        bside(hk, gs, ca),
        chal_at(h1, 1),
        a0c,
        bm1c,
        dcs,
    )
}

/// The witness rows as canonical values.
pub open spec fn ha_wit_rows(w: Witness) -> Seq<Seq<int>> {
    w.a_rows@.map(|i: int, row: Vec<ark_bn254::Fr>| vals(row@))
}

/// The component-wise product of the first `k` rows (`k` at least one).
pub open spec fn ha_partial_row(wits: Seq<Seq<int>>, n: nat, k: nat) -> Seq<int>
    decreases k,
{
    if k <= 1 {
        wits[0]
    } else {
        let prev = ha_partial_row(wits, n, (k - 1) as nat);
        Seq::new(n, |i: int| fmul(prev[i], wits[k - 1][i]))
    }
}

/// Parameters: the commit key.
pub struct Parameters {
    pub commit_key: CommitKey,
}

impl Parameters {
    pub fn new(commit_key: CommitKey) -> (r: Parameters)
        ensures
            r.commit_key == commit_key,
    {
        Parameters { commit_key }
    }
}

/// Statement: the row commitments and the commitment to the claimed
/// component-wise product.
pub struct Statement {
    pub a_commits: Vec<GroupElem>,
    pub b_commit: GroupElem,
}

impl Statement {
    pub fn new(a_commits: Vec<GroupElem>, b_commit: GroupElem) -> (r: Statement)
        ensures
            r.a_commits == a_commits,
            r.b_commit == b_commit,
    {
        Statement { a_commits, b_commit }
    }

    pub open spec fn well_formed(&self) -> bool {
        &&& self.a_commits@.len() >= 2
        &&& 3 * self.a_commits@.len() + 3 <= usize::MAX
    }

    pub fn check_well_formed(&self) -> (r: bool)
        ensures
            r <==> self.well_formed(),
    {
        let m = self.a_commits.len();
        if m < 2 {
            return false;
        }
        if m > (usize::MAX - 3) / 3 {
            proof {
                assert(3 * (((usize::MAX - 3) / 3) as int) <= usize::MAX - 3) by (nonlinear_arith);
            }
            return false;
        }
        proof {
            assert(m <= (usize::MAX - 3) / 3 ==> 3 * (m as int) + 3 <= usize::MAX)
                by (nonlinear_arith);
        }
        true
    }
}

/// Witness: the rows, their blinders, the claimed product row and its
/// blinder.
pub struct Witness {
    pub a_rows: Vec<Vec<ark_bn254::Fr>>,
    pub a_blinders: Vec<ark_bn254::Fr>,
    pub b: Vec<ark_bn254::Fr>,
    pub b_blinder: ark_bn254::Fr,
}

impl Witness {
    pub fn new(
        a_rows: Vec<Vec<ark_bn254::Fr>>,
        a_blinders: Vec<ark_bn254::Fr>,
        b: Vec<ark_bn254::Fr>,
        b_blinder: ark_bn254::Fr,
    ) -> (r: Witness)
        ensures
            r.a_rows == a_rows,
            r.a_blinders == a_blinders,
            r.b == b,
            r.b_blinder == b_blinder,
    {
        Witness { a_rows, a_blinders, b, b_blinder }
    }

    pub open spec fn well_formed(&self, m: nat, n: nat) -> bool {
        &&& self.a_rows@.len() == m
        &&& self.a_blinders@.len() == m
        &&& self.b@.len() == n
        &&& forall|i: int| 0 <= i < m ==> (#[trigger] self.a_rows@[i])@.len() == n
    }

    pub fn check_well_formed(&self, m: usize, n: usize) -> (r: bool)
        ensures
            r <==> self.well_formed(m as nat, n as nat),
    {
        if self.a_rows.len() != m || self.a_blinders.len() != m || self.b.len() != n {
            return false;
        }
        let mut i: usize = 0;
        let mut ok = true;
        while i < m
            invariant
                i <= m,
                m == self.a_rows@.len(),
                ok <==> (forall|j: int| 0 <= j < i ==> (#[trigger] self.a_rows@[j])@.len() == n),
            decreases m - i,
        {
            if self.a_rows[i].len() != n {
                ok = false;
            }
            i = i + 1;
        }
        ok
    }
}

/// A Hadamard-product proof: the middle partial-product commitments and
/// the reduced zero argument.
pub struct Proof {
    pub mid_commits: Vec<GroupElem>,
    pub zero_proof: zero_argument::Proof,
}

/// The whole acceptance condition of the verifier, over the model: the
/// shapes agree and the reduced zero argument accepts the derived
/// statement for the two challenges drawn from the given transcript
/// contents.
pub open spec fn ha_ok(hk: int, gs: Seq<int>, ca: Seq<int>, bc: int, p: Proof, hist0: Seq<Seq<u8>>) -> bool {
    let h1 = ha_hist(hist0, ca, bc, pts(p.mid_commits@));
    let x = chal_at(h1, 0);
    let y = chal_at(h1, 1);
    let ds = dside(cb_list(ca[0], pts(p.mid_commits@), bc), x);
    let bs = bside(hk, gs, ca);
    &&& ca.len() >= 2
    &&& 3 * ca.len() + 3 <= usize::MAX
    &&& gs.len() >= 1
    &&& p.mid_commits@.len() == ca.len() - 2
    &&& zero_argument::proof_shaped(p.zero_proof, ca.len(), gs.len())
    &&& za_accepts(
        hk,
        gs,
        ds,
        bs,
        y,
        dlog(p.zero_proof.a0_commit),
        dlog(p.zero_proof.bm1_commit),
        pts(p.zero_proof.d_commits@),
        vals(p.zero_proof.opened_a@),
        fr_val(p.zero_proof.opened_r),
        vals(p.zero_proof.opened_b@),
        fr_val(p.zero_proof.opened_s),
        fr_val(p.zero_proof.opened_t),
        za_challenge(
            h1,
            ds,
            bs,
            y,
            dlog(p.zero_proof.a0_commit),
            dlog(p.zero_proof.bm1_commit),
            pts(p.zero_proof.d_commits@),
        ),
    )
}

/// The argument.
pub struct HadamardArgument;

impl HadamardArgument {
    /// Produce a proof.  Succeeds exactly when the statement and witness
    /// dimensions agree with the commit key.
    pub fn prove(
        rng: &mut Sampler,
        parameters: &Parameters,
        statement: &Statement,
        witness: &Witness,
        t: &mut Transcript,
    ) -> (res: Result<Proof, CryptoError>)
        ensures
            (statement.well_formed() && parameters.commit_key.spec_len() >= 1 && witness.well_formed(
                statement.a_commits@.len(),
                parameters.commit_key.spec_len(),
            )) <==> res is Ok,
            res matches Ok(p) ==> p.mid_commits@.len() == statement.a_commits@.len() - 2,
            res matches Ok(p) ==> (forall|l: int|
                0 <= l < statement.a_commits@.len() - 2 ==> dlog(#[trigger] p.mid_commits@[l])
                    == com(
                    dlog(parameters.commit_key.h),
                    parameters.commit_key.gs_vals(),
                    ha_partial_row(
                        ha_wit_rows(*witness),
                        parameters.commit_key.spec_len(),
                        (l + 2) as nat,
                    ),
                    crate::sampling::fr_stream_val(old(rng)@, l as nat),
                )),
            res is Ok ==> final(rng)@ == crate::sampling::fr_stream_state(
                old(rng)@,
                (2 * parameters.commit_key.spec_len() + 3 * statement.a_commits@.len() + 1) as nat,
            ),
            res is Err ==> is_stage_err(res, "Hadamard"@),
    {
        let ghost s0 = rng@;
        let n = parameters.commit_key.len();
        let m = statement.a_commits.len();
        if !statement.check_well_formed() || n == 0 {
            return Err(stage_error("Hadamard"));
        }
        if !witness.check_well_formed(m, n) {
            return Err(stage_error("Hadamard"));
        }

        let ghost wits = ha_wit_rows(*witness);
        proof {
            assert forall|l: int| 0 <= l < m implies #[trigger] wits[l] == vals(
                witness.a_rows@[l]@,
            ) by {}
        }

        // Partial Hadamard products: partials[i] is the component-wise
        // product of the first i + 1 rows.
        let mut partials: Vec<Vec<ark_bn254::Fr>> = Vec::new();
        partials.push(vec_dup(&witness.a_rows[0]));
        let mut i: usize = 1;
        while i < m
            invariant
                1 <= i <= m,
                m == witness.a_rows@.len(),
                witness.well_formed(m as nat, n as nat),
                wits == ha_wit_rows(*witness),
                partials@.len() == i,
                forall|j: int| 0 <= j < i ==> (#[trigger] partials@[j])@.len() == n,
                forall|j: int|
                    0 <= j < i ==> vals((#[trigger] partials@[j])@) == ha_partial_row(
                        wits,
                        n as nat,
                        (j + 1) as nat,
                    ),
            decreases m - i,
        {
            let prev = &partials[i - 1];
            let row = &witness.a_rows[i];
            let mut next: Vec<ark_bn254::Fr> = Vec::new();
            let mut j: usize = 0;
            while j < n
                invariant
                    j <= n,
                    prev@.len() == n,
                    row@.len() == n,
                    next@.len() == j,
                    forall|l: int|
                        0 <= l < j ==> fr_val(#[trigger] next@[l]) == fmul(
                            fr_val(prev@[l]),
                            fr_val(row@[l]),
                        ),
                decreases n - j,
            {
                next.push(fr_mul(&prev[j], &row[j]));
                j = j + 1;
            }
            proof {
                assert(wits[i as int] == vals(witness.a_rows@[i as int]@));
                assert(vals(next@) =~= ha_partial_row(wits, n as nat, (i + 1) as nat));
            }
            partials.push(next);
            i = i + 1;
        }

        // Blinders: the first row's blinder opens the first statement
        // commitment, the product blinder opens the last; the middle
        // partial products get fresh blinders and commitments.
        let mids_blinders = sample_vector(rng, m - 2);
        let mut mid_commits: Vec<GroupElem> = Vec::new();
        let mut i: usize = 1;
        while i < m - 1
            invariant
                1 <= i <= m - 1,
                2 <= m,
                m == partials@.len(),
                mids_blinders@.len() == m - 2,
                forall|l: int|
                    0 <= l < m - 2 ==> fr_val(#[trigger] mids_blinders@[l])
                        == crate::sampling::fr_stream_val(s0, l as nat),
                wits == ha_wit_rows(*witness),
                forall|j: int|
                    0 <= j < m ==> vals((#[trigger] partials@[j])@) == ha_partial_row(
                        wits,
                        n as nat,
                        (j + 1) as nat,
                    ),
                n == parameters.commit_key.spec_len(),
                forall|j: int| 0 <= j < m ==> (#[trigger] partials@[j])@.len() == n,
                mid_commits@.len() == i - 1,
                forall|l: int|
                    0 <= l < i - 1 ==> dlog(#[trigger] mid_commits@[l]) == com(
                        dlog(parameters.commit_key.h),
                        parameters.commit_key.gs_vals(),
                        ha_partial_row(wits, n as nat, (l + 2) as nat),
                        crate::sampling::fr_stream_val(s0, l as nat),
                    ),
            decreases m - 1 - i,
        {
            let c = match commit(&parameters.commit_key, &partials[i], &mids_blinders[i - 1]) {
                Ok(c) => c,
                Err(_) => {
                    return Err(stage_error("Hadamard"));
                },
            };
            mid_commits.push(c);
            i = i + 1;
        }

        t.absorb_points(&statement.a_commits);
        t.absorb_point(&statement.b_commit);
        t.absorb_points(&mid_commits);
        let x = t.challenge();
        let y = t.challenge();
        let xs = scalar_powers(&x, m);

        // The full blinder list aligned with the partial products.
        let mut s_list: Vec<ark_bn254::Fr> = Vec::new();
        s_list.push(fr_copy(&witness.a_blinders[0]));
        let mut i: usize = 1;
        while i < m - 1
            invariant
                1 <= i <= m - 1,
                2 <= m,
                mids_blinders@.len() == m - 2,
                s_list@.len() == i,
            decreases m - 1 - i,
        {
            s_list.push(fr_copy(&mids_blinders[i - 1]));
            i = i + 1;
        }
        s_list.push(fr_copy(&witness.b_blinder));

        // First-side rows of the zero argument: x^i B_i for i = 1..m-1 and
        // the combined shifted row last.
        let mut zrows_a: Vec<Vec<ark_bn254::Fr>> = Vec::new();
        let mut zblind_a: Vec<ark_bn254::Fr> = Vec::new();
        let mut i: usize = 1;
        while i < m
            invariant
                1 <= i <= m,
                2 <= m,
                m == partials@.len(),
                s_list@.len() == m,
                xs@.len() == m,
                forall|j: int| 0 <= j < m ==> (#[trigger] partials@[j])@.len() == n,
                zrows_a@.len() == i - 1,
                zblind_a@.len() == i - 1,
                forall|j: int| 0 <= j < i - 1 ==> (#[trigger] zrows_a@[j])@.len() == n,
            decreases m - i,
        {
            zrows_a.push(vec_scale(&xs[i], &partials[i - 1]));
            zblind_a.push(fr_mul(&xs[i], &s_list[i - 1]));
            i = i + 1;
        }
        let mut combined: Vec<ark_bn254::Fr> = crate::matrix::zero_vector(n);
        let mut combined_blind = fr_zero();
        let mut i: usize = 1;
        while i < m
            invariant
                1 <= i <= m,
                2 <= m,
                m == partials@.len(),
                s_list@.len() == m,
                xs@.len() == m,
                forall|j: int| 0 <= j < m ==> (#[trigger] partials@[j])@.len() == n,
                combined@.len() == n,
            decreases m - i,
        {
            let scaled = vec_scale(&xs[i], &partials[i]);
            combined = vec_add(&combined, &scaled);
            combined_blind = fr_add(&combined_blind, &fr_mul(&xs[i], &s_list[i]));
            i = i + 1;
        }
        zrows_a.push(combined);
        zblind_a.push(combined_blind);

        // Second-side rows: the witness rows from the second on, and the
        // all-minus-one row with a zero blinder.
        let mut zrows_b: Vec<Vec<ark_bn254::Fr>> = Vec::new();
        let mut zblind_b: Vec<ark_bn254::Fr> = Vec::new();
        let mut i: usize = 1;
        while i < m
            invariant
                1 <= i <= m,
                m == witness.a_rows@.len(),
                m == witness.a_blinders@.len(),
                witness.well_formed(m as nat, n as nat),
                zrows_b@.len() == i - 1,
                zblind_b@.len() == i - 1,
                forall|j: int| 0 <= j < i - 1 ==> (#[trigger] zrows_b@[j])@.len() == n,
            decreases m - i,
        {
            zrows_b.push(vec_dup(&witness.a_rows[i]));
            zblind_b.push(fr_copy(&witness.a_blinders[i]));
            i = i + 1;
        }
        let mut minus_ones: Vec<ark_bn254::Fr> = Vec::new();
        let mut j: usize = 0;
        while j < n
            invariant
                j <= n,
                minus_ones@.len() == j,
            decreases n - j,
        {
            minus_ones.push(fr_neg(&fr_one()));
            j = j + 1;
        }
        let minus_ones_kept = minus_ones_copy(&minus_ones);
        zrows_b.push(minus_ones);
        zblind_b.push(fr_zero());

        // First-side commitments, derived homomorphically.
        let mut cbs: Vec<GroupElem> = Vec::new();
        cbs.push(g1_copy(&statement.a_commits[0]));
        let mut i: usize = 1;
        while i < m - 1
            invariant
                1 <= i <= m - 1,
                2 <= m,
                mid_commits@.len() == m - 2,
                cbs@.len() == i,
            decreases m - 1 - i,
        {
            cbs.push(g1_copy(&mid_commits[i - 1]));
            i = i + 1;
        }
        cbs.push(g1_copy(&statement.b_commit));

        let mut zca: Vec<GroupElem> = Vec::new();
        let mut i: usize = 1;
        while i < m
            invariant
                1 <= i <= m,
                2 <= m,
                cbs@.len() == m,
                xs@.len() == m,
                zca@.len() == i - 1,
            decreases m - i,
        {
            zca.push(g1_mul(&xs[i], &cbs[i - 1]));
            i = i + 1;
        }
        let cbs_tail = {
            let mut tail: Vec<GroupElem> = Vec::new();
            let mut i: usize = 1;
            while i < m
                invariant
                    1 <= i <= m,
                    cbs@.len() == m,
                    tail@.len() == i - 1,
                decreases m - i,
            {
                tail.push(g1_copy(&cbs[i]));
                i = i + 1;
            }
            tail
        };
        let xs_tail = vec_slice(&xs, 1, m);
        let last_ca = msm(&cbs_tail, &xs_tail);
        zca.push(last_ca);

        let mut zcb: Vec<GroupElem> = Vec::new();
        let mut i: usize = 1;
        while i < m
            invariant
                1 <= i <= m,
                m == statement.a_commits@.len(),
                zcb@.len() == i - 1,
            decreases m - i,
        {
            zcb.push(g1_copy(&statement.a_commits[i]));
            i = i + 1;
        }
        let neg_commit = match commit(&parameters.commit_key, &minus_ones_kept, &fr_zero()) {
            Ok(c) => c,
            Err(_) => {
                return Err(stage_error("Hadamard"));
            },
        };
        zcb.push(neg_commit);

        let zparams = zero_argument::Parameters::new(crate::pedersen::CommitKey {
            h: g1_copy(&parameters.commit_key.h),
            gs: dup_points(&parameters.commit_key.gs),
        });
        let zstmt = zero_argument::Statement::new(zca, zcb, fr_copy(&y));
        let zwit = zero_argument::Witness::new(zrows_a, zblind_a, zrows_b, zblind_b);
        let res = match ZeroArgument::prove(rng, &zparams, &zstmt, &zwit, t) {
            Ok(zp) => Ok(Proof { mid_commits, zero_proof: zp }),
            Err(_) => Err(stage_error("Hadamard")),
        };
        proof {
            crate::sampling::lemma_fr_stream_compose(
                s0,
                (m - 2) as nat,
                (2 * n + 2 * m + 3) as nat,
            );
        }
        res
    }

    /// Verify a proof.  Accepts exactly when the statement and proof are
    /// well shaped and the reduced zero argument accepts the statement
    /// derived from the two challenges.
    pub fn verify(
        parameters: &Parameters,
        statement: &Statement,
        proof: &Proof,
        t: &mut Transcript,
    ) -> (res: Result<(), CryptoError>)
        ensures
            res is Ok <==> ha_ok(
                dlog(parameters.commit_key.h),
                parameters.commit_key.gs_vals(),
                pts(statement.a_commits@),
                dlog(statement.b_commit),
                *proof,
                old(t).hist(),
            ),
            res is Ok ==> final(t).hist() =~= ha_final_hist(
                old(t).hist(),
                pts(statement.a_commits@),
                dlog(statement.b_commit),
                pts(proof.mid_commits@),
                dlog(parameters.commit_key.h),
                parameters.commit_key.gs_vals(),
                dlog(proof.zero_proof.a0_commit),
                dlog(proof.zero_proof.bm1_commit),
                pts(proof.zero_proof.d_commits@),
            ) && final(t).draws() == 1,
            res is Err ==> (is_stage_err(res, "Hadamard"@) || is_stage_err(res, "Zero"@)),
    {
        let ghost hist0 = t.hist();
        let n = parameters.commit_key.len();
        let m = statement.a_commits.len();
        if !statement.check_well_formed() || n == 0 {
            return Err(stage_error("Hadamard"));
        }
        if proof.mid_commits.len() != m - 2 {
            return Err(stage_error("Hadamard"));
        }

        t.absorb_points(&statement.a_commits);
        t.absorb_point(&statement.b_commit);
        t.absorb_points(&proof.mid_commits);
        proof {
            assert(t.hist() =~= ha_hist(
                hist0,
                pts(statement.a_commits@),
                dlog(statement.b_commit),
                pts(proof.mid_commits@),
            ));
        }
        let x = t.challenge();
        let y = t.challenge();
        let ghost xv = fr_val(x);
        let xs = scalar_powers(&x, m);

        // Reconstruct the partial-product commitment list.
        let mut cbs: Vec<GroupElem> = Vec::new();
        cbs.push(g1_copy(&statement.a_commits[0]));
        let mut i: usize = 1;
        while i < m - 1
            invariant
                1 <= i <= m - 1,
                2 <= m,
                m == statement.a_commits@.len(),
                proof.mid_commits@.len() == m - 2,
                cbs@.len() == i,
                cbs@[0] == statement.a_commits@[0],
                forall|j: int| 1 <= j < i ==> #[trigger] cbs@[j] == proof.mid_commits@[j - 1],
            decreases m - 1 - i,
        {
            cbs.push(g1_copy(&proof.mid_commits[i - 1]));
            i = i + 1;
        }
        cbs.push(g1_copy(&statement.b_commit));
        proof {
            assert(pts(cbs@) =~= cb_list(
                dlog(statement.a_commits@[0]),
                pts(proof.mid_commits@),
                dlog(statement.b_commit),
            ));
        }

        // First-side commitments.
        let mut zca: Vec<GroupElem> = Vec::new();
        let mut i: usize = 1;
        while i < m
            invariant
                1 <= i <= m,
                2 <= m,
                cbs@.len() == m,
                xs@.len() == m,
                xv == fr_val(x),
                forall|j: int| 0 <= j < m ==> fr_val(#[trigger] xs@[j]) == fpow(xv, j as nat),
                zca@.len() == i - 1,
                forall|j: int|
                    0 <= j < i - 1 ==> dlog(#[trigger] zca@[j]) == fmul(
                        fpow(xv, (j + 1) as nat),
                        dlog(cbs@[j]),
                    ),
            decreases m - i,
        {
            zca.push(g1_mul(&xs[i], &cbs[i - 1]));
            i = i + 1;
        }
        let cbs_tail = {
            let mut tail: Vec<GroupElem> = Vec::new();
            let mut i: usize = 1;
            while i < m
                invariant
                    1 <= i <= m,
                    cbs@.len() == m,
                    tail@.len() == i - 1,
                    forall|j: int| 0 <= j < i - 1 ==> #[trigger] tail@[j] == cbs@[j + 1],
                decreases m - i,
            {
                tail.push(g1_copy(&cbs[i]));
                i = i + 1;
            }
            tail
        };
        let xs_tail = vec_slice(&xs, 1, m);
        let last_ca = msm(&cbs_tail, &xs_tail);
        zca.push(last_ca);
        proof {
            assert(vals(xs_tail@) =~= Seq::new(
                (m - 1) as nat,
                |i: int| fpow(xv, (i + 1) as nat),
            ));
            assert(pts(cbs_tail@) =~= pts(cbs@).subrange(1, m as int));
            crate::algebra::lemma_psum_congruence(
                pts(cbs_tail@),
                vals(xs_tail@),
                pts(cbs@).subrange(1, m as int),
                Seq::new((m - 1) as nat, |i: int| fpow(xv, (i + 1) as nat)),
                (m - 1) as nat,
            );
            assert(pts(zca@) =~= dside(pts(cbs@), xv));
        }

        // Second-side commitments.
        let mut zcb: Vec<GroupElem> = Vec::new();
        let mut i: usize = 1;
        while i < m
            invariant
                1 <= i <= m,
                m == statement.a_commits@.len(),
                zcb@.len() == i - 1,
                forall|j: int| 0 <= j < i - 1 ==> #[trigger] zcb@[j] == statement.a_commits@[j + 1],
            decreases m - i,
        {
            zcb.push(g1_copy(&statement.a_commits[i]));
            i = i + 1;
        }
        let mut minus_ones: Vec<ark_bn254::Fr> = Vec::new();
        let mut j: usize = 0;
        while j < n
            invariant
                j <= n,
                minus_ones@.len() == j,
                forall|l: int| 0 <= l < j ==> fr_val(#[trigger] minus_ones@[l]) == fneg(1),
            decreases n - j,
        {
            minus_ones.push(fr_neg(&fr_one()));
            j = j + 1;
        }
        let neg_commit = match commit(&parameters.commit_key, &minus_ones, &fr_zero()) {
            Ok(c) => c,
            Err(_) => {
                return Err(stage_error("Hadamard"));
            },
        };
        zcb.push(neg_commit);
        proof {
            assert(vals(minus_ones@) =~= neg_ones(n as nat));
            assert(pts(zcb@) =~= bside(
                dlog(parameters.commit_key.h),
                parameters.commit_key.gs_vals(),
                pts(statement.a_commits@),
            ));
        }

        let zparams = zero_argument::Parameters::new(crate::pedersen::CommitKey {
            h: g1_copy(&parameters.commit_key.h),
            gs: dup_points(&parameters.commit_key.gs),
        });
        let zstmt = zero_argument::Statement::new(zca, zcb, fr_copy(&y));
        ZeroArgument::verify(&zparams, &zstmt, &proof.zero_proof, t)
    }
}

/// A copy of a point vector.
pub fn dup_points(v: &Vec<GroupElem>) -> (r: Vec<GroupElem>)
    ensures
        r@ == v@,
{
    let mut out: Vec<GroupElem> = Vec::new();
    let mut i: usize = 0;
    while i < v.len()
        invariant
            i <= v@.len(),
            out@.len() == i,
            forall|j: int| 0 <= j < i ==> #[trigger] out@[j] == v@[j],
        decreases v@.len() - i,
    {
        out.push(g1_copy(&v[i]));
        i = i + 1;
    }
    proof {
        assert(out@ =~= v@);
    }
    out
}

/// A copy of a scalar vector, local helper for the minus-one row.
fn minus_ones_copy(v: &Vec<ark_bn254::Fr>) -> (r: Vec<ark_bn254::Fr>)
    ensures
        r@ == v@,
{
    crate::matrix::vec_dup(v)
}

} // verus!
