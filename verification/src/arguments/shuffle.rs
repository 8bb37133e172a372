//! The shuffle argument.
//!
//! Statement: ciphertext vectors `C` and `C'` of length `N = m * n`,
//! arranged row-major as m-by-n matrices.  Witness: a permutation `pi` of
//! `{0..N-1}` and remask scalars `rho` such that
//! `C'_i = C_(pi(i)) + E(0; rho_i)`.  The prover commits row-wise to the
//! shifted permutation entries `pi(i) + 1`; challenges `x` and `y` follow;
//! it then commits row-wise to `x^pi(i)` and shows, by a product argument,
//! that `prod_i (y (pi(i)+1) - x^pi(i)) = prod_i (y (i+1) - x^i)`, and by a
//! multi-exponentiation argument that `sum_i x^i C_i` is a re-encryption of
//! `sum_i x^pi(i) C'_i`.  Any sub-argument failure surfaces as the shuffle
//! stage's own proof-verification error.

use vstd::prelude::*;

use crate::arguments::hadamard::dup_points;
use crate::arguments::multi_exponentiation::{self, me_ok, MultiExponentiation};
use crate::arguments::product::{self, dup_rows, pa_final_hist, pa_ok, ProductArgument};
use crate::elgamal::Ciphertext;
use crate::error::{is_stage_err, stage_error, CryptoError};
use crate::group::{
    dlog, fr_copy, fr_from_u64, fr_mul, fr_neg, fr_one, fr_sub, fr_val, g1_add, g1_copy, g1_mul,
    g1_neg, GroupElem, Sampler,
};
use crate::matrix::{
    cipher_msm, cpsum, cvs, pts, reshape_ciphertexts, reshape_scalars, scalar_dot, scalar_powers,
    vals, vec_dup,
};
use crate::pedersen::{com, commit, CommitKey};
use crate::permutation::Permutation;
use crate::sampling::sample_vector;
use crate::transcript::{chal_at, ser_ciphers, ser_points, Transcript};
use crate::zq::{fadd, fmul, fneg, fpow, fsub, q};

verus! {

/// The transcript contents after the statement and the permutation
/// commitments are absorbed; the two challenges are drawn from here.
pub open spec fn sh_hist1(
    hist0: Seq<Seq<u8>>,
    input: Seq<(int, int)>,
    shuffled: Seq<(int, int)>,
    ca: Seq<int>,
) -> Seq<Seq<u8>> {
    hist0 + seq![ser_ciphers(input), ser_ciphers(shuffled), ser_points(ca)]
}

/// The derived commitments of the product-argument statement:
/// `y * c_A_i - c_B_i`.
pub open spec fn ce_list(ca: Seq<int>, cb: Seq<int>, y: int) -> Seq<int> {
    Seq::new(ca.len(), |i: int| fadd(fmul(y, ca[i]), fneg(cb[i])))
}

/// The public product `prod_(i=1..k) (y * i - x^(i-1))`.
pub open spec fn sh_bval(x: int, y: int, k: nat) -> int
    decreases k,
{
    if k == 0 {
        1
    } else {
        fmul(sh_bval(x, y, (k - 1) as nat), fsub(fmul(y, k as int), fpow(x, (k - 1) as nat)))
    }
}

/// The shuffled ciphertexts arranged row-major as an m-by-n matrix.
pub open spec fn sh_rows(shuffled: Seq<(int, int)>, m: nat, n: nat) -> Seq<Seq<(int, int)>> {
    Seq::new(m, |i: int| shuffled.subrange(i * n, i * n + n))
}

/// The aggregated input ciphertext `sum_i x^i C_i`.
pub open spec fn sh_cbar(input: Seq<(int, int)>, x: int) -> (int, int) {
    cpsum(input, Seq::new(input.len(), |i: int| fpow(x, i as nat)), input.len())
}

/// The shifted permutation entries, embedded in the field: the prover's
/// committed first matrix, flattened row-major.
pub open spec fn sh_pi_vals(p: Permutation, len: nat) -> Seq<int> {
    Seq::new(len, |l: int| (p.at(l) + 1) % q())
}

/// The committed exponents: the challenge's powers at the permuted
/// positions, flattened row-major.
pub open spec fn sh_d_vals(p: Permutation, x: int, len: nat) -> Seq<int> {
    Seq::new(len, |l: int| fpow(x, p.at(l) as nat))
}

/// Parameters: the encryption parameters and public key, the commit key,
/// and the masking generator, shared with both sub-arguments.
pub struct Parameters {
    pub encrypt_parameters: crate::elgamal::Parameters,
    pub public_key: GroupElem,
    pub commit_key: CommitKey,
    pub generator: GroupElem,
}

impl Parameters {
    pub fn new(
        encrypt_parameters: crate::elgamal::Parameters,
        public_key: GroupElem,
        commit_key: CommitKey,
        generator: GroupElem,
    ) -> (r: Parameters)
        ensures
            r.encrypt_parameters == encrypt_parameters,
            r.public_key == public_key,
            r.commit_key == commit_key,
            r.generator == generator,
    {
        Parameters { encrypt_parameters, public_key, commit_key, generator }
    }
}

/// Statement: the input ciphertexts, the shuffled ciphertexts and the
/// matrix dimensions.
pub struct Statement {
    pub input_ciphers: Vec<Ciphertext>,
    pub shuffled_ciphers: Vec<Ciphertext>,
    pub m: usize,
    pub n: usize,
}

impl Statement {
    pub fn new(
        input_ciphers: Vec<Ciphertext>,
        shuffled_ciphers: Vec<Ciphertext>,
        m: usize,
        n: usize,
    ) -> (r: Statement)
        ensures
            r.input_ciphers == input_ciphers,
            r.shuffled_ciphers == shuffled_ciphers,
            r.m == m,
            r.n == n,
    {
        Statement { input_ciphers, shuffled_ciphers, m, n }
    }

    /// Both vectors have exactly `m * n` entries, for a workable matrix
    /// shape.
    pub open spec fn well_formed(&self) -> bool {
        &&& self.m >= 2
        &&& self.n >= 2
        &&& 3 * (self.m as int) + 3 <= usize::MAX
        &&& self.input_ciphers@.len() == self.m * self.n
        &&& self.shuffled_ciphers@.len() == self.m * self.n
    }

    /// Check the dimensions, failing with the shuffle statement error
    /// exactly when they do not form an m-by-n matrix.
    pub fn is_valid(&self) -> (r: Result<(), CryptoError>)
        ensures
            r is Ok <==> self.well_formed(),
            r matches Err(e) ==> e == CryptoError::InvalidShuffleStatement,
    {
        if self.m < 2 || self.n < 2 {
            return Err(CryptoError::InvalidShuffleStatement);
        }
        if self.m > (usize::MAX - 3) / 3 {
            proof {
                assert(3 * (((usize::MAX - 3) / 3) as int) <= usize::MAX - 3) by (nonlinear_arith);
            }
            return Err(CryptoError::InvalidShuffleStatement);
        }
        proof {
            assert(self.m <= (usize::MAX - 3) / 3 ==> 3 * (self.m as int) + 3 <= usize::MAX)
                by (nonlinear_arith);
        }
        let len = self.input_ciphers.len();
        if len / self.n != self.m || len % self.n != 0 {
            proof {
                if self.input_ciphers@.len() == self.m * self.n {
                    vstd::arithmetic::div_mod::lemma_fundamental_div_mod_converse(
                        len as int,
                        self.n as int,
                        self.m as int,
                        0,
                    );
                }
            }
            return Err(CryptoError::InvalidShuffleStatement);
        }
        proof {
            vstd::arithmetic::div_mod::lemma_fundamental_div_mod(len as int, self.n as int);
            vstd::arithmetic::mul::lemma_mul_is_commutative(self.m as int, self.n as int);
        }
        if self.shuffled_ciphers.len() != len {
            return Err(CryptoError::InvalidShuffleStatement);
        }
        Ok(())
    }
}

/// Witness: the permutation and the remask scalars.
pub struct Witness {
    pub permutation: Permutation,
    pub rho: Vec<ark_bn254::Fr>,
}

impl Witness {
    pub fn new(permutation: Permutation, rho: Vec<ark_bn254::Fr>) -> (r: Witness)
        ensures
            r.permutation == permutation,
            r.rho == rho,
    {
        Witness { permutation, rho }
    }
}

/// A shuffle proof: the permutation commitments, the exponent commitments
/// and the two sub-proofs.
pub struct Proof {
    pub a_commits: Vec<GroupElem>,
    pub b_commits: Vec<GroupElem>,
    pub product_proof: product::Proof,
    pub multiexp_proof: multi_exponentiation::Proof,
}

/// The whole acceptance condition of the verifier, over the model: the
/// product argument accepts the permutation identity and the
/// multi-exponentiation argument accepts the re-encryption identity, on
/// the chained transcript.
pub open spec fn sh_ok(
    genc: int,
    pk: int,
    hk: int,
    gs: Seq<int>,
    mgen: int,
    input: Seq<(int, int)>,
    shuffled: Seq<(int, int)>,
    m: nat,
    n: nat,
    p: Proof,
    hist0: Seq<Seq<u8>>,
) -> bool {
    let h1 = sh_hist1(hist0, input, shuffled, pts(p.a_commits@));
    let x = chal_at(h1, 0);
    let y = chal_at(h1, 1);
    let h2 = h1 + seq![ser_points(pts(p.b_commits@))];
    let ce = ce_list(pts(p.a_commits@), pts(p.b_commits@), y);
    let bval = sh_bval(x, y, (m * n) as nat);
    &&& m >= 2
    &&& n >= 2
    &&& 3 * m + 3 <= usize::MAX
    &&& input.len() == m * n
    &&& shuffled.len() == m * n
    &&& n == gs.len()
    &&& p.a_commits@.len() == m
    &&& p.b_commits@.len() == m
    &&& pa_ok(hk, gs, ce, bval, p.product_proof, h2)
    &&& me_ok(
        genc,
        pk,
        hk,
        gs,
        mgen,
        sh_rows(shuffled, m, n),
        sh_cbar(input, x),
        pts(p.b_commits@),
        p.multiexp_proof,
        pa_final_hist(h2, hk, gs, ce, bval, p.product_proof),
    )
}

/// The argument.
pub struct ShuffleArgument;

impl ShuffleArgument {
    /// Produce a shuffle proof.  Succeeds exactly when the statement forms
    /// an m-by-n matrix whose size matches the commit key, the permutation
    /// covers it and there is one remask scalar per position.
    pub fn prove(
        rng: &mut Sampler,
        parameters: &Parameters,
        statement: &Statement,
        witness: &Witness,
        t: &mut Transcript,
    ) -> (res: Result<Proof, CryptoError>)
        requires
            witness.permutation.valid(),
        ensures
            (statement.well_formed() && statement.n == parameters.commit_key.spec_len()
                && witness.permutation.spec_size() == statement.m * statement.n
                && witness.rho@.len() == statement.m * statement.n) <==> res is Ok,
            res is Ok ==> final(rng)@ == crate::sampling::fr_stream_state(
                old(rng)@,
                (5 * statement.n + 11 * statement.m + 6) as nat,
            ),
            res matches Ok(p) ==> ({
                let s0r = old(rng)@;
                let mm = statement.m as int;
                let nn = statement.n as int;
                let len = (statement.m * statement.n) as nat;
                let hk = dlog(parameters.commit_key.h);
                let gs = parameters.commit_key.gs_vals();
                let x1 = chal_at(
                    sh_hist1(
                        old(t).hist(),
                        cvs(statement.input_ciphers@),
                        cvs(statement.shuffled_ciphers@),
                        pts(p.a_commits@),
                    ),
                    0,
                );
                &&& p.a_commits@.len() == mm
                &&& p.b_commits@.len() == mm
                &&& forall|i: int|
                    0 <= i < mm ==> dlog(#[trigger] p.a_commits@[i]) == com(
                        hk,
                        gs,
                        sh_pi_vals(witness.permutation, len).subrange(i * nn, i * nn + nn),
                        crate::sampling::fr_stream_val(s0r, i as nat),
                    )
                &&& forall|i: int|
                    0 <= i < mm ==> dlog(#[trigger] p.b_commits@[i]) == com(
                        hk,
                        gs,
                        sh_d_vals(witness.permutation, x1, len).subrange(i * nn, i * nn + nn),
                        crate::sampling::fr_stream_val(
                            crate::sampling::fr_stream_state(s0r, statement.m as nat),
                            i as nat,
                        ),
                    )
            }),
            res matches Err(e) ==> e == CryptoError::InvalidShuffleStatement,
    {
        let ghost hist0 = t.hist();
        let ghost s0 = rng@;
        let m = statement.m;
        let n = statement.n;
        match statement.is_valid() {
            Ok(_) => (),
            Err(e) => {
                return Err(e);
            },
        }
        if n != parameters.commit_key.len() {
            return Err(CryptoError::InvalidShuffleStatement);
        }
        let total = statement.input_ciphers.len();
        if witness.permutation.size() != total || witness.rho.len() != total {
            return Err(CryptoError::InvalidShuffleStatement);
        }

        let ghost pivals = sh_pi_vals(witness.permutation, total as nat);

        // Commit row-wise to the shifted permutation entries pi(i) + 1.
        let mut pi_flat: Vec<ark_bn254::Fr> = Vec::new();
        let mut i: usize = 0;
        while i < total
            invariant
                i <= total,
                witness.permutation.valid(),
                witness.permutation.spec_size() == total,
                pivals == sh_pi_vals(witness.permutation, total as nat),
                pi_flat@.len() == i,
                forall|l: int| 0 <= l < i ==> fr_val(#[trigger] pi_flat@[l]) == pivals[l],
            decreases total - i,
        {
            let image = witness.permutation.mapping[i];
            pi_flat.push(fr_from_u64((image + 1) as u64));
            i = i + 1;
        }
        let a_rows = match reshape_scalars(&pi_flat, m, n) {
            Ok(r) => r,
            Err(_) => {
                return Err(CryptoError::InvalidShuffleStatement);
            },
        };
        let r_a = sample_vector(rng, m);
        let ghost hk = dlog(parameters.commit_key.h);
        let ghost gsv = parameters.commit_key.gs_vals();
        let mut a_commits: Vec<GroupElem> = Vec::new();
        let mut i: usize = 0;
        while i < m
            invariant
                i <= m,
                total == m * n,
                a_rows@.len() == m,
                r_a@.len() == m,
                forall|l: int|
                    0 <= l < m ==> fr_val(#[trigger] r_a@[l]) == crate::sampling::fr_stream_val(
                        s0,
                        l as nat,
                    ),
                pi_flat@.len() == total,
                forall|l: int| 0 <= l < total ==> fr_val(#[trigger] pi_flat@[l]) == pivals[l],
                pivals == sh_pi_vals(witness.permutation, total as nat),
                hk == dlog(parameters.commit_key.h),
                gsv == parameters.commit_key.gs_vals(),
                n == parameters.commit_key.spec_len(),
                n >= 1,
                forall|j: int| 0 <= j < m ==> (#[trigger] a_rows@[j])@.len() == n,
                forall|a: int, b: int|
                    0 <= a < m && 0 <= b < n ==> (#[trigger] a_rows@[a]@[b]) == pi_flat@[a * n + b],
                a_commits@.len() == i,
                forall|l: int|
                    0 <= l < i ==> dlog(#[trigger] a_commits@[l]) == com(
                        hk,
                        gsv,
                        pivals.subrange(l * (n as int), l * (n as int) + (n as int)),
                        crate::sampling::fr_stream_val(s0, l as nat),
                    ),
            decreases m - i,
        {
            let c = match commit(&parameters.commit_key, &a_rows[i], &r_a[i]) {
                Ok(c) => c,
                Err(_) => {
                    return Err(CryptoError::InvalidShuffleStatement);
                },
            };
            proof {
                vstd::arithmetic::mul::lemma_mul_inequality(i as int + 1, m as int, n as int);
                vstd::arithmetic::mul::lemma_mul_is_distributive_add_other_way(
                    n as int,
                    i as int,
                    1,
                );
                assert(vals(a_rows@[i as int]@) =~= pivals.subrange(
                    (i as int) * (n as int),
                    (i as int) * (n as int) + (n as int),
                ));
            }
            a_commits.push(c);
            i = i + 1;
        }

        t.absorb_ciphertexts(&statement.input_ciphers);
        t.absorb_ciphertexts(&statement.shuffled_ciphers);
        t.absorb_points(&a_commits);
        proof {
            assert(t.hist() =~= sh_hist1(
                hist0,
                cvs(statement.input_ciphers@),
                cvs(statement.shuffled_ciphers@),
                pts(a_commits@),
            ));
        }
        let x = t.challenge();
        let y = t.challenge();
        let ghost xv = fr_val(x);
        let xs = scalar_powers(&x, total);
        let ghost dvals = sh_d_vals(witness.permutation, xv, total as nat);

        // Commit row-wise to x^pi(i).
        let mut d_flat: Vec<ark_bn254::Fr> = Vec::new();
        let mut i: usize = 0;
        while i < total
            invariant
                i <= total,
                witness.permutation.valid(),
                witness.permutation.spec_size() == total,
                xv == fr_val(x),
                dvals == sh_d_vals(witness.permutation, xv, total as nat),
                xs@.len() == total,
                forall|l: int| 0 <= l < total ==> fr_val(#[trigger] xs@[l]) == fpow(xv, l as nat),
                d_flat@.len() == i,
                forall|l: int| 0 <= l < i ==> fr_val(#[trigger] d_flat@[l]) == dvals[l],
            decreases total - i,
        {
            let image = witness.permutation.mapping[i];
            d_flat.push(fr_copy(&xs[image]));
            i = i + 1;
        }
        let d_rows = match reshape_scalars(&d_flat, m, n) {
            Ok(r) => r,
            Err(_) => {
                return Err(CryptoError::InvalidShuffleStatement);
            },
        };
        let ghost s1 = rng@;
        let r_b = sample_vector(rng, m);
        let mut b_commits: Vec<GroupElem> = Vec::new();
        let mut i: usize = 0;
        while i < m
            invariant
                i <= m,
                total == m * n,
                d_rows@.len() == m,
                r_b@.len() == m,
                s1 == crate::sampling::fr_stream_state(s0, m as nat),
                forall|l: int|
                    0 <= l < m ==> fr_val(#[trigger] r_b@[l]) == crate::sampling::fr_stream_val(
                        s1,
                        l as nat,
                    ),
                d_flat@.len() == total,
                forall|l: int| 0 <= l < total ==> fr_val(#[trigger] d_flat@[l]) == dvals[l],
                dvals == sh_d_vals(witness.permutation, xv, total as nat),
                hk == dlog(parameters.commit_key.h),
                gsv == parameters.commit_key.gs_vals(),
                n == parameters.commit_key.spec_len(),
                n >= 1,
                forall|j: int| 0 <= j < m ==> (#[trigger] d_rows@[j])@.len() == n,
                forall|a: int, b: int|
                    0 <= a < m && 0 <= b < n ==> (#[trigger] d_rows@[a]@[b]) == d_flat@[a * n + b],
                b_commits@.len() == i,
                forall|l: int|
                    0 <= l < i ==> dlog(#[trigger] b_commits@[l]) == com(
                        hk,
                        gsv,
                        dvals.subrange(l * (n as int), l * (n as int) + (n as int)),
                        crate::sampling::fr_stream_val(s1, l as nat),
                    ),
            decreases m - i,
        {
            let c = match commit(&parameters.commit_key, &d_rows[i], &r_b[i]) {
                Ok(c) => c,
                Err(_) => {
                    return Err(CryptoError::InvalidShuffleStatement);
                },
            };
            proof {
                vstd::arithmetic::mul::lemma_mul_inequality(i as int + 1, m as int, n as int);
                vstd::arithmetic::mul::lemma_mul_is_distributive_add_other_way(
                    n as int,
                    i as int,
                    1,
                );
                assert(vals(d_rows@[i as int]@) =~= dvals.subrange(
                    (i as int) * (n as int),
                    (i as int) * (n as int) + (n as int),
                ));
            }
            b_commits.push(c);
            i = i + 1;
        }
        t.absorb_points(&b_commits);

        // Product argument: the entries y (pi(i)+1) - x^pi(i) multiply to
        // the public product over the unpermuted entries.
        let mut e_rows: Vec<Vec<ark_bn254::Fr>> = Vec::new();
        let mut e_blinders: Vec<ark_bn254::Fr> = Vec::new();
        let mut i: usize = 0;
        while i < m
            invariant
                i <= m,
                a_rows@.len() == m,
                d_rows@.len() == m,
                r_a@.len() == m,
                r_b@.len() == m,
                forall|j: int| 0 <= j < m ==> (#[trigger] a_rows@[j])@.len() == n,
                forall|j: int| 0 <= j < m ==> (#[trigger] d_rows@[j])@.len() == n,
                e_rows@.len() == i,
                e_blinders@.len() == i,
                forall|j: int| 0 <= j < i ==> (#[trigger] e_rows@[j])@.len() == n,
            decreases m - i,
        {
            let arow = &a_rows[i];
            let drow = &d_rows[i];
            let mut erow: Vec<ark_bn254::Fr> = Vec::new();
            let mut j: usize = 0;
            while j < n
                invariant
                    j <= n,
                    arow@.len() == n,
                    drow@.len() == n,
                    erow@.len() == j,
                decreases n - j,
            {
                erow.push(fr_sub(&fr_mul(&y, &arow[j]), &drow[j]));
                j = j + 1;
            }
            e_rows.push(erow);
            e_blinders.push(fr_sub(&fr_mul(&y, &r_a[i]), &r_b[i]));
            i = i + 1;
        }
        let mut e_commits: Vec<GroupElem> = Vec::new();
        let mut i: usize = 0;
        while i < m
            invariant
                i <= m,
                a_commits@.len() == m,
                b_commits@.len() == m,
                e_commits@.len() == i,
            decreases m - i,
        {
            e_commits.push(g1_add(&g1_mul(&y, &a_commits[i]), &g1_neg(&b_commits[i])));
            i = i + 1;
        }
        let mut bval = fr_one();
        let mut i: usize = 0;
        while i < total
            invariant
                i <= total,
                xs@.len() == total,
            decreases total - i,
        {
            let shifted = fr_from_u64((i + 1) as u64);
            let term = fr_sub(&fr_mul(&y, &shifted), &xs[i]);
            bval = fr_mul(&bval, &term);
            i = i + 1;
        }
        let pa_params = product::Parameters::new(CommitKey {
            h: g1_copy(&parameters.commit_key.h),
            gs: dup_points(&parameters.commit_key.gs),
        });
        let pa_stmt = product::Statement::new(dup_points(&e_commits), fr_copy(&bval));
        let pa_wit = product::Witness::new(e_rows, e_blinders);
        proof {
            assert(pa_stmt.a_commits@ =~= e_commits@);
            assert(pa_wit.a_rows@.len() == m);
        }
        let pa_proof = match ProductArgument::prove(rng, &pa_params, &pa_stmt, &pa_wit, t) {
            Ok(p) => p,
            Err(_) => {
                return Err(CryptoError::InvalidShuffleStatement);
            },
        };

        // Multi-exponentiation argument: sum x^i C_i re-encrypts
        // sum x^pi(i) C'_i.
        let me_rows = match reshape_ciphertexts(&statement.shuffled_ciphers, m, n) {
            Ok(r) => r,
            Err(_) => {
                return Err(CryptoError::InvalidShuffleStatement);
            },
        };
        let cbar = cipher_msm(&statement.input_ciphers, &xs);
        let me_params = multi_exponentiation::Parameters::new(
            crate::elgamal::Parameters { generator: g1_copy(&parameters.encrypt_parameters.generator) },
            g1_copy(&parameters.public_key),
            CommitKey {
                h: g1_copy(&parameters.commit_key.h),
                gs: dup_points(&parameters.commit_key.gs),
            },
            g1_copy(&parameters.generator),
        );
        let me_stmt = multi_exponentiation::Statement::new(me_rows, cbar, dup_points(&b_commits));
        let rho_tilde = scalar_dot(&d_flat, &witness.rho);
        let me_wit = multi_exponentiation::Witness::new(
            dup_rows(&d_rows),
            vec_dup(&r_b),
            fr_neg(&rho_tilde),
        );
        proof {
            assert forall|i: int| 0 <= i < m implies (#[trigger] me_stmt.spec_rows()[i]).len()
                == n as nat by {
                assert(me_stmt.spec_rows()[i] == crate::matrix::cvs(me_stmt.shuffled_ciphers@[i]@));
            }
        }
        let me_proof = match MultiExponentiation::prove(rng, &me_params, &me_stmt, &me_wit, t) {
            Ok(p) => p,
            Err(_) => {
                return Err(CryptoError::InvalidShuffleStatement);
            },
        };
        proof {
            crate::sampling::lemma_fr_stream_compose(s0, m as nat, m as nat);
            crate::sampling::lemma_fr_stream_compose(
                s0,
                (2 * m) as nat,
                (4 * n + 3 * m + 5) as nat,
            );
            crate::sampling::lemma_fr_stream_compose(
                s0,
                (4 * n + 5 * m + 5) as nat,
                (n + 6 * m + 1) as nat,
            );
        }

        Ok(Proof { a_commits, b_commits, product_proof: pa_proof, multiexp_proof: me_proof })
    }

    /// Verify a shuffle proof.  Accepts exactly when both sub-arguments
    /// accept the statements derived from the two challenges; any failure
    /// of a sub-argument surfaces as the shuffle stage's error.
    pub fn verify(
        parameters: &Parameters,
        statement: &Statement,
        proof: &Proof,
        t: &mut Transcript,
    ) -> (res: Result<(), CryptoError>)
        ensures
            res is Ok <==> (statement.n == parameters.commit_key.spec_len() && sh_ok(
                dlog(parameters.encrypt_parameters.generator),
                dlog(parameters.public_key),
                dlog(parameters.commit_key.h),
                parameters.commit_key.gs_vals(),
                dlog(parameters.generator),
                cvs(statement.input_ciphers@),
                cvs(statement.shuffled_ciphers@),
                statement.m as nat,
                statement.n as nat,
                *proof,
                old(t).hist(),
            )),
            !(statement.well_formed() && statement.n == parameters.commit_key.spec_len()) ==> (
            res matches Err(e) && e == CryptoError::InvalidShuffleStatement),
            (statement.well_formed() && statement.n == parameters.commit_key.spec_len() && res
                is Err) ==> is_stage_err(res, "Shuffle"@),
    {
        let ghost hist0 = t.hist();
        let m = statement.m;
        let n = statement.n;
        match statement.is_valid() {
            Ok(_) => (),
            Err(e) => {
                return Err(e);
            },
        }
        if n != parameters.commit_key.len() {
            return Err(CryptoError::InvalidShuffleStatement);
        }
        if proof.a_commits.len() != m || proof.b_commits.len() != m {
            return Err(stage_error("Shuffle"));
        }
        let total = statement.input_ciphers.len();

        t.absorb_ciphertexts(&statement.input_ciphers);
        t.absorb_ciphertexts(&statement.shuffled_ciphers);
        t.absorb_points(&proof.a_commits);
        proof {
            assert(t.hist() =~= sh_hist1(
                hist0,
                cvs(statement.input_ciphers@),
                cvs(statement.shuffled_ciphers@),
                pts(proof.a_commits@),
            ));
        }
        let x = t.challenge();
        let y = t.challenge();
        let ghost xv = fr_val(x);
        let ghost yv = fr_val(y);
        let xs = scalar_powers(&x, total);
        t.absorb_points(&proof.b_commits);
        proof {
            assert(t.hist() =~= sh_hist1(
                hist0,
                cvs(statement.input_ciphers@),
                cvs(statement.shuffled_ciphers@),
                pts(proof.a_commits@),
            ) + seq![ser_points(pts(proof.b_commits@))]);
        }

        // Rebuild the product-argument statement.
        let mut e_commits: Vec<GroupElem> = Vec::new();
        let mut i: usize = 0;
        while i < m
            invariant
                i <= m,
                proof.a_commits@.len() == m,
                proof.b_commits@.len() == m,
                yv == fr_val(y),
                e_commits@.len() == i,
                forall|j: int|
                    0 <= j < i ==> dlog(#[trigger] e_commits@[j]) == fadd(
                        fmul(yv, pts(proof.a_commits@)[j]),
                        fneg(pts(proof.b_commits@)[j]),
                    ),
            decreases m - i,
        {
            e_commits.push(g1_add(&g1_mul(&y, &proof.a_commits[i]), &g1_neg(&proof.b_commits[i])));
            i = i + 1;
        }
        proof {
            assert(pts(e_commits@) =~= ce_list(pts(proof.a_commits@), pts(proof.b_commits@), yv));
        }
        let mut bval = fr_one();
        let mut i: usize = 0;
        while i < total
            invariant
                i <= total,
                xs@.len() == total,
                xv == fr_val(x),
                yv == fr_val(y),
                forall|l: int| 0 <= l < total ==> fr_val(#[trigger] xs@[l]) == fpow(xv, l as nat),
                fr_val(bval) == sh_bval(xv, yv, i as nat),
            decreases total - i,
        {
            let shifted = fr_from_u64((i + 1) as u64);
            proof {
                vstd::arithmetic::div_mod::lemma_small_mod((i + 1) as nat, q() as nat);
            }
            let term = fr_sub(&fr_mul(&y, &shifted), &xs[i]);
            bval = fr_mul(&bval, &term);
            i = i + 1;
        }
        let pa_params = product::Parameters::new(CommitKey {
            h: g1_copy(&parameters.commit_key.h),
            gs: dup_points(&parameters.commit_key.gs),
        });
        let pa_stmt = product::Statement::new(e_commits, fr_copy(&bval));
        match ProductArgument::verify(&pa_params, &pa_stmt, &proof.product_proof, t) {
            Ok(_) => (),
            Err(_) => {
                return Err(stage_error("Shuffle"));
            },
        }

        // Rebuild the multi-exponentiation statement.
        let me_rows = match reshape_ciphertexts(&statement.shuffled_ciphers, m, n) {
            Ok(r) => r,
            Err(_) => {
                return Err(CryptoError::InvalidShuffleStatement);
            },
        };
        let cbar = cipher_msm(&statement.input_ciphers, &xs);
        proof {
            assert(vals(xs@) =~= Seq::new(
                cvs(statement.input_ciphers@).len(),
                |i: int| fpow(xv, i as nat),
            ));
            crate::matrix::lemma_cpsum_congruence(
                cvs(statement.input_ciphers@),
                vals(xs@),
                cvs(statement.input_ciphers@),
                Seq::new(cvs(statement.input_ciphers@).len(), |i: int| fpow(xv, i as nat)),
                cvs(statement.input_ciphers@).len(),
            );
        }
        let me_params = multi_exponentiation::Parameters::new(
            crate::elgamal::Parameters { generator: g1_copy(&parameters.encrypt_parameters.generator) },
            g1_copy(&parameters.public_key),
            CommitKey {
                h: g1_copy(&parameters.commit_key.h),
                gs: dup_points(&parameters.commit_key.gs),
            },
            g1_copy(&parameters.generator),
        );
        let me_stmt = multi_exponentiation::Statement::new(
            me_rows,
            cbar,
            dup_points(&proof.b_commits),
        );
        proof {
            assert forall|i: int| 0 <= i < m implies (#[trigger] me_stmt.spec_rows()[i])
                =~= sh_rows(cvs(statement.shuffled_ciphers@), m as nat, n as nat)[i] by {
                vstd::arithmetic::mul::lemma_mul_inequality(i + 1, m as int, n as int);
                vstd::arithmetic::mul::lemma_mul_is_distributive_add_other_way(n as int, i, 1);
                vstd::arithmetic::mul::lemma_mul_is_commutative(m as int, n as int);
                assert(i * (n as int) >= 0) by (nonlinear_arith)
                    requires
                        i >= 0,
                        n >= 1,
                ;
                assert(me_stmt.spec_rows()[i] == cvs(me_stmt.shuffled_ciphers@[i]@));
                assert(me_stmt.shuffled_ciphers@[i]@.len() == n);
                assert forall|j: int| 0 <= j < n implies cvs(me_stmt.shuffled_ciphers@[i]@)[j]
                    == cvs(statement.shuffled_ciphers@)[i * (n as int) + j] by {
                    vstd::arithmetic::mul::lemma_mul_inequality(i + 1, m as int, n as int);
                    vstd::arithmetic::mul::lemma_mul_is_distributive_add_other_way(
                        n as int,
                        i,
                        1,
                    );
                    assert(i * (n as int) + j < (m as int) * (n as int));
                    assert(me_stmt.shuffled_ciphers@[i]@[j] == statement.shuffled_ciphers@[i * (
                    n as int) + j]);
                }
            }
            assert(me_stmt.spec_rows() =~= sh_rows(
                cvs(statement.shuffled_ciphers@),
                m as nat,
                n as nat,
            ));
        }
        match MultiExponentiation::verify(&me_params, &me_stmt, &proof.multiexp_proof, t) {
            Ok(_) => Ok(()),
            Err(_) => Err(stage_error("Shuffle")),
        }
    }
}

} // verus!
