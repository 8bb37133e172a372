//! The product argument.
//!
//! Given commitments to the rows of an m-by-n matrix and a public scalar
//! `b`, proves that the product of all matrix entries equals `b`.  The
//! prover commits to the component-wise product `d` of the rows, shows by a
//! Hadamard-product argument that `d` is that component-wise product, and
//! by a single-value product argument that the entries of `d` multiply to
//! `b`.  A sub-argument failure surfaces with the failing stage's own
//! error.

use vstd::prelude::*;

use crate::arguments::hadamard::{
    self, dup_points, ha_final_hist, ha_ok, ha_partial_row, HadamardArgument,
};
use crate::arguments::single_value_product::{self, svp_final_hist, svp_ok, SingleValueProductArgument};
use crate::error::{is_stage_err, stage_error, CryptoError};
use crate::group::{
    dlog, fr_copy, fr_mul, fr_rand, fr_val, g1_copy, GroupElem, Sampler, ser_fr, ser_g1,
};
use crate::matrix::{pts, vals, vec_dup};
use crate::pedersen::{commit, CommitKey};
use crate::transcript::{ser_points, Transcript};
use crate::zq::fmul;

verus! {

/// The transcript contents after the statement and the product-row
/// commitment are absorbed.
pub open spec fn pa_hist(hist0: Seq<Seq<u8>>, ca: Seq<int>, bval: int, dc: int) -> Seq<Seq<u8>> {
    hist0 + seq![ser_points(ca), ser_fr(bval), ser_g1(dc)]
}

/// Parameters: the commit key.
pub struct Parameters {
    pub commit_key: CommitKey,
}

impl Parameters {
    pub fn new(commit_key: CommitKey) -> (r: Parameters)
        ensures
            r.commit_key == commit_key,
    {
        Parameters { commit_key }
    }
}

/// Statement: the row commitments and the claimed product of all entries.
pub struct Statement {
    pub a_commits: Vec<GroupElem>,
    pub b: ark_bn254::Fr,
}

impl Statement {
    pub fn new(a_commits: Vec<GroupElem>, b: ark_bn254::Fr) -> (r: Statement)
        ensures
            r.a_commits == a_commits,
            r.b == b,
    {
        Statement { a_commits, b }
    }

    pub open spec fn well_formed(&self) -> bool {
        &&& self.a_commits@.len() >= 2
        &&& 3 * self.a_commits@.len() + 3 <= usize::MAX
    }

    pub fn check_well_formed(&self) -> (r: bool)
        ensures
            r <==> self.well_formed(),
    {
        let m = self.a_commits.len();
        if m < 2 {
            return false;
        }
        if m > (usize::MAX - 3) / 3 {
            proof {
                assert(3 * (((usize::MAX - 3) / 3) as int) <= usize::MAX - 3) by (nonlinear_arith);
            }
            return false;
        }
        proof {
            assert(m <= (usize::MAX - 3) / 3 ==> 3 * (m as int) + 3 <= usize::MAX)
                by (nonlinear_arith);
        }
        true
    }
}

/// Witness: the matrix rows and the blinders of their commitments.
pub struct Witness {
    pub a_rows: Vec<Vec<ark_bn254::Fr>>,
    pub a_blinders: Vec<ark_bn254::Fr>,
}

impl Witness {
    pub fn new(a_rows: Vec<Vec<ark_bn254::Fr>>, a_blinders: Vec<ark_bn254::Fr>) -> (r: Witness)
        ensures
            r.a_rows == a_rows,
            r.a_blinders == a_blinders,
    {
        Witness { a_rows, a_blinders }
    }

    pub open spec fn well_formed(&self, m: nat, n: nat) -> bool {
        &&& self.a_rows@.len() == m
        &&& self.a_blinders@.len() == m
        &&& forall|i: int| 0 <= i < m ==> (#[trigger] self.a_rows@[i])@.len() == n
    }

    pub fn check_well_formed(&self, m: usize, n: usize) -> (r: bool)
        ensures
            r <==> self.well_formed(m as nat, n as nat),
    {
        if self.a_rows.len() != m || self.a_blinders.len() != m {
            return false;
        }
        let mut i: usize = 0;
        let mut ok = true;
        while i < m
            invariant
                i <= m,
                m == self.a_rows@.len(),
                ok <==> (forall|j: int| 0 <= j < i ==> (#[trigger] self.a_rows@[j])@.len() == n),
            decreases m - i,
        {
            if self.a_rows[i].len() != n {
                ok = false;
            }
            i = i + 1;
        }
        ok
    }
}

/// A product-argument proof: the commitment to the component-wise product
/// row and the two sub-proofs.
pub struct Proof {
    pub d_commit: GroupElem,
    pub hadamard_proof: hadamard::Proof,
    pub svp_proof: single_value_product::Proof,
}

/// The witness rows as canonical values.
pub open spec fn pa_wit_rows(w: Witness) -> Seq<Seq<int>> {
    w.a_rows@.map(|i: int, row: Vec<ark_bn254::Fr>| vals(row@))
}

/// The whole acceptance condition of the verifier, over the model: both
/// sub-arguments accept, the single-value product argument on the
/// transcript the Hadamard argument leaves behind.
pub open spec fn pa_ok(hk: int, gs: Seq<int>, ca: Seq<int>, bval: int, p: Proof, hist0: Seq<
    Seq<u8>,
>) -> bool {
    let h1 = pa_hist(hist0, ca, bval, dlog(p.d_commit));
    &&& ca.len() >= 2
    &&& 3 * ca.len() + 3 <= usize::MAX
    &&& gs.len() >= 2
    &&& ha_ok(hk, gs, ca, dlog(p.d_commit), p.hadamard_proof, h1)
    &&& svp_ok(
        hk,
        gs,
        dlog(p.d_commit),
        bval,
        p.svp_proof,
        ha_final_hist(
            h1,
            ca,
            dlog(p.d_commit),
            pts(p.hadamard_proof.mid_commits@),
            hk,
            gs,
            dlog(p.hadamard_proof.zero_proof.a0_commit),
            dlog(p.hadamard_proof.zero_proof.bm1_commit),
            pts(p.hadamard_proof.zero_proof.d_commits@),
        ),
    )
}

/// The transcript contents after the whole argument has run, with one
/// challenge drawn since the last absorption.
pub open spec fn pa_final_hist(
    hist0: Seq<Seq<u8>>,
    hk: int,
    gs: Seq<int>,
    ca: Seq<int>,
    bval: int,
    p: Proof,
) -> Seq<Seq<u8>> {
    let h1 = pa_hist(hist0, ca, bval, dlog(p.d_commit));
    let h2 = ha_final_hist(
        h1,
        ca,
        dlog(p.d_commit),
        pts(p.hadamard_proof.mid_commits@),
        hk,
        gs,
        dlog(p.hadamard_proof.zero_proof.a0_commit),
        dlog(p.hadamard_proof.zero_proof.bm1_commit),
        pts(p.hadamard_proof.zero_proof.d_commits@),
    );
    svp_final_hist(
        h2,
        dlog(p.d_commit),
        bval,
        dlog(p.svp_proof.d_commit),
        dlog(p.svp_proof.lo_commit),
        dlog(p.svp_proof.hi_commit),
    )
}

/// The argument.
pub struct ProductArgument;

impl ProductArgument {
    /// Produce a proof.  Succeeds exactly when the statement and witness
    /// dimensions agree with the commit key and the key length is at least
    /// two.
    pub fn prove(
        rng: &mut Sampler,
        parameters: &Parameters,
        statement: &Statement,
        witness: &Witness,
        t: &mut Transcript,
    ) -> (res: Result<Proof, CryptoError>)
        ensures
            (statement.well_formed() && parameters.commit_key.spec_len() >= 2 && witness.well_formed(
                statement.a_commits@.len(),
                parameters.commit_key.spec_len(),
            )) <==> res is Ok,
            res is Ok ==> final(rng)@ == crate::sampling::fr_stream_state(
                old(rng)@,
                (4 * parameters.commit_key.spec_len() + 3 * statement.a_commits@.len() + 5) as nat,
            ),
            res matches Ok(p) ==> dlog(p.d_commit) == crate::pedersen::com(
                dlog(parameters.commit_key.h),
                parameters.commit_key.gs_vals(),
                ha_partial_row(
                    pa_wit_rows(*witness),
                    parameters.commit_key.spec_len(),
                    statement.a_commits@.len(),
                ),
                crate::group::fr_draw(old(rng)@),
            ),
            res is Err ==> is_stage_err(res, "Product"@),
    {
        let ghost s0 = rng@;
        let n = parameters.commit_key.len();
        let m = statement.a_commits.len();
        if !statement.check_well_formed() || n < 2 {
            return Err(stage_error("Product"));
        }
        if !witness.check_well_formed(m, n) {
            return Err(stage_error("Product"));
        }

        // The component-wise product of all rows.
        let ghost wits = pa_wit_rows(*witness);
        proof {
            assert forall|l: int| 0 <= l < m implies #[trigger] wits[l] == vals(
                witness.a_rows@[l]@,
            ) by {}
        }
        let mut d = vec_dup(&witness.a_rows[0]);
        let mut i: usize = 1;
        while i < m
            invariant
                1 <= i <= m,
                m == witness.a_rows@.len(),
                witness.well_formed(m as nat, n as nat),
                wits == pa_wit_rows(*witness),
                d@.len() == n,
                vals(d@) == ha_partial_row(wits, n as nat, i as nat),
            decreases m - i,
        {
            let row = &witness.a_rows[i];
            let mut next: Vec<ark_bn254::Fr> = Vec::new();
            let mut j: usize = 0;
            while j < n
                invariant
                    j <= n,
                    d@.len() == n,
                    row@.len() == n,
                    next@.len() == j,
                    forall|l: int|
                        0 <= l < j ==> fr_val(#[trigger] next@[l]) == fmul(
                            fr_val(d@[l]),
                            fr_val(row@[l]),
                        ),
                decreases n - j,
            {
                next.push(fr_mul(&d[j], &row[j]));
                j = j + 1;
            }
            proof {
                assert(wits[i as int] == vals(witness.a_rows@[i as int]@));
                assert(vals(next@) =~= ha_partial_row(wits, n as nat, (i + 1) as nat));
            }
            d = next;
            i = i + 1;
        }
        let s_d = fr_rand(rng);
        let d_commit = match commit(&parameters.commit_key, &d, &s_d) {
            Ok(c) => c,
            Err(_) => {
                return Err(stage_error("Product"));
            },
        };

        t.absorb_points(&statement.a_commits);
        t.absorb_scalar(&statement.b);
        t.absorb_point(&d_commit);

        let hparams = hadamard::Parameters::new(CommitKey {
            h: g1_copy(&parameters.commit_key.h),
            gs: dup_points(&parameters.commit_key.gs),
        });
        let hstmt = hadamard::Statement::new(
            dup_points(&statement.a_commits),
            g1_copy(&d_commit),
        );
        let hwit = hadamard::Witness::new(
            dup_rows(&witness.a_rows),
            vec_dup(&witness.a_blinders),
            vec_dup(&d),
            fr_copy(&s_d),
        );
        let hproof = match HadamardArgument::prove(rng, &hparams, &hstmt, &hwit, t) {
            Ok(p) => p,
            Err(_) => {
                return Err(stage_error("Product"));
            },
        };

        let sparams = single_value_product::Parameters::new(
            n,
            CommitKey { h: g1_copy(&parameters.commit_key.h), gs: dup_points(&parameters.commit_key.gs) },
        );
        let sstmt = single_value_product::Statement::new(g1_copy(&d_commit), fr_copy(&statement.b));
        let swit = single_value_product::Witness::new(d, s_d);
        let sproof = match SingleValueProductArgument::prove(rng, &sparams, &sstmt, &swit, t) {
            Ok(p) => p,
            Err(_) => {
                return Err(stage_error("Product"));
            },
        };
        proof {
            assert(crate::sampling::fr_stream_state(s0, 0) == s0);
            assert(crate::sampling::fr_stream_state(s0, 1) == crate::group::fr_draw_next(s0));
            crate::sampling::lemma_fr_stream_compose(s0, 1, (2 * n + 3 * m + 1) as nat);
            crate::sampling::lemma_fr_stream_compose(
                s0,
                (2 * n + 3 * m + 2) as nat,
                (2 * n + 3) as nat,
            );
        }

        Ok(Proof { d_commit, hadamard_proof: hproof, svp_proof: sproof })
    }

    /// Verify a proof.  Accepts exactly when both sub-arguments accept,
    /// and surfaces the failing sub-argument's own stage.
    pub fn verify(
        parameters: &Parameters,
        statement: &Statement,
        proof: &Proof,
        t: &mut Transcript,
    ) -> (res: Result<(), CryptoError>)
        ensures
            res is Ok <==> pa_ok(
                dlog(parameters.commit_key.h),
                parameters.commit_key.gs_vals(),
                pts(statement.a_commits@),
                fr_val(statement.b),
                *proof,
                old(t).hist(),
            ),
            res is Ok ==> final(t).hist() =~= pa_final_hist(
                old(t).hist(),
                dlog(parameters.commit_key.h),
                parameters.commit_key.gs_vals(),
                pts(statement.a_commits@),
                fr_val(statement.b),
                *proof,
            ) && final(t).draws() == 1,
            res is Err ==> (is_stage_err(res, "Product"@) || is_stage_err(res, "Hadamard"@)
                || is_stage_err(res, "Zero"@) || is_stage_err(res, "Single Value Product"@)),
    {
        let ghost hist0 = t.hist();
        let n = parameters.commit_key.len();
        if !statement.check_well_formed() || n < 2 {
            return Err(stage_error("Product"));
        }

        t.absorb_points(&statement.a_commits);
        t.absorb_scalar(&statement.b);
        t.absorb_point(&proof.d_commit);
        proof {
            assert(t.hist() =~= pa_hist(
                hist0,
                pts(statement.a_commits@),
                fr_val(statement.b),
                dlog(proof.d_commit),
            ));
        }

        let hparams = hadamard::Parameters::new(CommitKey {
            h: g1_copy(&parameters.commit_key.h),
            gs: dup_points(&parameters.commit_key.gs),
        });
        let hstmt = hadamard::Statement::new(
            dup_points(&statement.a_commits),
            g1_copy(&proof.d_commit),
        );
        match HadamardArgument::verify(&hparams, &hstmt, &proof.hadamard_proof, t) {
            Ok(_) => (),
            Err(e) => {
                return Err(e);
            },
        }

        let sparams = single_value_product::Parameters::new(
            n,
            CommitKey { h: g1_copy(&parameters.commit_key.h), gs: dup_points(&parameters.commit_key.gs) },
        );
        let sstmt = single_value_product::Statement::new(
            g1_copy(&proof.d_commit),
            fr_copy(&statement.b),
        );
        SingleValueProductArgument::verify(&sparams, &sstmt, &proof.svp_proof, t)
    }
}

/// A copy of a matrix of scalar rows.
pub fn dup_rows(v: &Vec<Vec<ark_bn254::Fr>>) -> (r: Vec<Vec<ark_bn254::Fr>>)
    ensures
        r@.len() == v@.len(),
        forall|i: int| 0 <= i < v@.len() ==> (#[trigger] r@[i])@ == v@[i]@,
{
    let mut out: Vec<Vec<ark_bn254::Fr>> = Vec::new();
    let mut i: usize = 0;
    while i < v.len()
        invariant
            i <= v@.len(),
            out@.len() == i,
            forall|j: int| 0 <= j < i ==> (#[trigger] out@[j])@ == v@[j]@,
        decreases v@.len() - i,
    {
        out.push(vec_dup(&v[i]));
        i = i + 1;
    }
    out
}

} // verus!
