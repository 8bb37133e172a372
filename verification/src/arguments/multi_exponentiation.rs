//! The multi-exponentiation argument.
//!
//! Statement: an m-by-n matrix of ciphertexts `C`, a ciphertext `C-bar`, and
//! commitments to the rows of a hidden m-by-n matrix `A` of exponents.
//! Claim: `C-bar = E(0; rho) + sum_i <C_i, A_i>`, an aggregated re-encrypted
//! linear combination.  The prover sends a commitment to an extra random row
//! `a_0`, commitments to `2m` random scalars `b_k` (with the diagonal slot
//! fixed to zero), and `2m` diagonal ciphertexts `E_k`; the challenge `x`
//! then has the prover open `a = a_0 + sum x^j A_j` with the matching
//! blinder and `x`-power combinations of the `b_k`, their blinders and the
//! encryption randomizers, and the verifier checks two commitment identities
//! and one homomorphic identity over the diagonals.
//!
//! The enclosing protocol is expected to absorb the ciphertext matrix into
//! the transcript before delegating here, as the shuffle argument does.

use vstd::prelude::*;

use crate::algebra::psum;
use crate::elgamal::{cadd, enc, Ciphertext};
use crate::error::{is_stage_err, stage_error, CryptoError};
use crate::group::{
    dlog, fr_add, fr_copy, fr_mul, fr_rand, fr_val, fr_zero, g1_eq, g1_mul, GroupElem, Sampler,
};
use crate::matrix::{
    cipher_msm, cpsum, cvs, msm, pad_first, pad_first_vector, pts, scalar_dot, scalar_powers,
    vals, vec_add, vec_dup, vec_scale, vec_slice, zero_seq, zero_vector,
};
use crate::pedersen::{com, commit, CommitKey};
use crate::sampling::sample_vector;
use crate::transcript::{chal_at, ser_cipher, ser_ciphers, ser_points, Transcript};
use crate::zq::{fadd, fmul, fpow};

verus! {

/// Parameters: the encryption parameters and public key, the commit key,
/// and the public generator used to lift the masking scalars into the
/// group.
pub struct Parameters {
    pub encrypt_parameters: crate::elgamal::Parameters,
    pub public_key: GroupElem,
    pub commit_key: CommitKey,
    pub generator: GroupElem,
}

impl Parameters {
    pub fn new(
        encrypt_parameters: crate::elgamal::Parameters,
        public_key: GroupElem,
        commit_key: CommitKey,
        generator: GroupElem,
    ) -> (r: Parameters)
        ensures
            r.encrypt_parameters == encrypt_parameters,
            r.public_key == public_key,
            r.commit_key == commit_key,
            r.generator == generator,
    {
        Parameters { encrypt_parameters, public_key, commit_key, generator }
    }
}

/// Witness: the hidden m-by-n exponent matrix, the blinders of its row
/// commitments, and the aggregate re-encryption scalar.
pub struct Witness {
    pub matrix_a: Vec<Vec<ark_bn254::Fr>>,
    pub matrix_blinders: Vec<ark_bn254::Fr>,
    pub rho: ark_bn254::Fr,
}

impl Witness {
    pub fn new(
        matrix_a: Vec<Vec<ark_bn254::Fr>>,
        matrix_blinders: Vec<ark_bn254::Fr>,
        rho: ark_bn254::Fr,
    ) -> (r: Witness)
        ensures
            r.matrix_a == matrix_a,
            r.matrix_blinders == matrix_blinders,
            r.rho == rho,
    {
        Witness { matrix_a, matrix_blinders, rho }
    }
}

/// Statement: the ciphertext matrix, the aggregated product ciphertext and
/// the commitments to the exponent rows.
pub struct Statement {
    pub shuffled_ciphers: Vec<Vec<Ciphertext>>,
    pub product: Ciphertext,
    pub commitments_to_exponents: Vec<GroupElem>,
}

impl Statement {
    pub fn new(
        shuffled_ciphers: Vec<Vec<Ciphertext>>,
        product: Ciphertext,
        commitments_to_exponents: Vec<GroupElem>,
    ) -> (r: Statement)
        ensures
            r.shuffled_ciphers == shuffled_ciphers,
            r.product == product,
            r.commitments_to_exponents == commitments_to_exponents,
    {
        Statement { shuffled_ciphers, product, commitments_to_exponents }
    }

    /// The views of the ciphertext rows.
    pub open spec fn spec_rows(&self) -> Seq<Seq<(int, int)>> {
        self.shuffled_ciphers@.map(|i: int, row: Vec<Ciphertext>| cvs(row@))
    }

    /// The matrix is nonempty, every row has the key's length, and there is
    /// one exponent commitment per row.
    pub open spec fn well_formed(&self, n: nat) -> bool {
        let rows = self.spec_rows();
        &&& rows.len() >= 1
        &&& 3 * rows.len() + 3 <= usize::MAX
        &&& n >= 1
        &&& forall|i: int| 0 <= i < rows.len() ==> (#[trigger] rows[i]).len() == n
        &&& self.commitments_to_exponents@.len() == rows.len()
    }

    pub fn check_well_formed(&self, n: usize) -> (r: bool)
        ensures
            r <==> self.well_formed(n as nat),
    {
        let ghost rows = self.spec_rows();
        proof {
            assert forall|i: int| 0 <= i < rows.len() implies (#[trigger] rows[i]).len()
                == self.shuffled_ciphers@[i]@.len() by {
                assert(rows[i] == cvs(self.shuffled_ciphers@[i]@));
            }
        }
        let m = self.shuffled_ciphers.len();
        if m == 0 || n == 0 {
            return false;
        }
        if m > (usize::MAX - 3) / 3 {
            proof {
                assert(3 * (((usize::MAX - 3) / 3) as int) <= usize::MAX - 3) by (nonlinear_arith);
            }
            return false;
        }
        proof {
            assert(m <= (usize::MAX - 3) / 3 ==> 3 * (m as int) + 3 <= usize::MAX)
                by (nonlinear_arith);
        }
        if self.commitments_to_exponents.len() != m {
            return false;
        }
        let mut i: usize = 0;
        let mut ok = true;
        while i < m
            invariant
                i <= m,
                m == self.shuffled_ciphers@.len(),
                rows == self.spec_rows(),
                forall|j: int|
                    0 <= j < m ==> (#[trigger] rows[j]).len() == self.shuffled_ciphers@[j]@.len(),
                ok <==> (forall|j: int| 0 <= j < i ==> (#[trigger] rows[j]).len() == n),
            decreases m - i,
        {
            proof {
                assert(rows[i as int].len() == self.shuffled_ciphers@[i as int]@.len());
            }
            if self.shuffled_ciphers[i].len() != n {
                ok = false;
            }
            i = i + 1;
        }
        ok
    }
}

/// A multi-exponentiation proof.
pub struct Proof {
    pub a0_commit: GroupElem,
    pub b_commits: Vec<GroupElem>,
    pub diagonals: Vec<Ciphertext>,
    pub opened_a: Vec<ark_bn254::Fr>,
    pub opened_r: ark_bn254::Fr,
    pub opened_b: ark_bn254::Fr,
    pub opened_s: ark_bn254::Fr,
    pub opened_tau: ark_bn254::Fr,
}

/// The proof has the component counts the verifier expects for an m-by-n
/// statement.
pub open spec fn proof_shaped(p: Proof, m: nat, n: nat) -> bool {
    &&& p.b_commits@.len() == 2 * m
    &&& p.diagonals@.len() == 2 * m
    &&& p.opened_a@.len() == n
}

/// The challenge of the argument: drawn after absorbing the product, the
/// exponent commitments, and the prover's first-move messages into the
/// enclosing transcript.
pub open spec fn me_challenge(
    hist0: Seq<Seq<u8>>,
    product: (int, int),
    ca: Seq<int>,
    a0c: int,
    bcs: Seq<int>,
    es: Seq<(int, int)>,
) -> int {
    chal_at(
        hist0 + seq![
            ser_cipher(product),
            ser_points(ca),
            crate::group::ser_g1(a0c),
            ser_points(bcs),
            ser_ciphers(es),
        ],
        0,
    )
}

/// The transcript contents after the argument has run, with one challenge
/// drawn.
pub open spec fn me_final_hist(
    hist0: Seq<Seq<u8>>,
    product: (int, int),
    ca: Seq<int>,
    a0c: int,
    bcs: Seq<int>,
    es: Seq<(int, int)>,
) -> Seq<Seq<u8>> {
    hist0 + seq![
        ser_cipher(product),
        ser_points(ca),
        crate::group::ser_g1(a0c),
        ser_points(bcs),
        ser_ciphers(es),
    ]
}

/// The verifier's three algebraic checks and two structural checks, over
/// the model: the diagonal slot commitment opens to zero, the central
/// diagonal is the statement product, the opened row matches the
/// `x`-combination of the row commitments, the opened scalar matches the
/// `x`-combination of the `b` commitments, and the `x`-combination of the
/// diagonals equals the re-encryption of the opened combination.
pub open spec fn me_accepts(
    genc: int,
    pk: int,
    hk: int,
    gs: Seq<int>,
    mgen: int,
    rows: Seq<Seq<(int, int)>>,
    product: (int, int),
    ca: Seq<int>,
    a0c: int,
    bcs: Seq<int>,
    es: Seq<(int, int)>,
    a: Seq<int>,
    r: int,
    b: int,
    s: int,
    tau: int,
    x: int,
) -> bool {
    let m = rows.len();
    let n = gs.len();
    &&& bcs[m as int] == com(hk, gs, zero_seq(n), 0)
    &&& es[m as int] == product
    &&& com(hk, gs, a, r) == fadd(a0c, psum(ca, Seq::new(m, |j: int| fpow(x, (j + 1) as nat)), m))
    &&& com(hk, gs, pad_first(b, n), s) == psum(bcs, Seq::new(2 * m, |k: int| fpow(x, k as nat)), 2 * m)
    &&& cadd(
        enc(genc, pk, fmul(b, mgen), tau),
        cpsum(
            Seq::new(m, |i: int| cpsum(rows[i], a, n)),
            Seq::new(m, |i: int| fpow(x, (m - 1 - i) as nat)),
            m,
        ),
    ) == cpsum(es, Seq::new(2 * m, |k: int| fpow(x, k as nat)), 2 * m)
}

/// The masking row the prover samples: the first `n` scalar draws from the
/// entry generator state.
pub open spec fn me_a0_row(s0: nat, n: nat) -> Seq<int> {
    Seq::new(n, |i: int| crate::sampling::fr_stream_val(s0, i as nat))
}

/// The `k`-th diagonal scalar the prover uses: a fresh draw, except the
/// diagonal slot, which is zero.
pub open spec fn me_b_at(s0: nat, n: nat, m: nat, k: int) -> int {
    if k == m {
        0
    } else {
        crate::sampling::fr_stream_val(
            crate::sampling::fr_stream_state(s0, (n + 1) as nat),
            k as nat,
        )
    }
}

/// The `k`-th commitment blinder the prover uses: a fresh draw, except the
/// diagonal slot, which is zero.
pub open spec fn me_s_at(s0: nat, n: nat, m: nat, k: int) -> int {
    if k == m {
        0
    } else {
        crate::sampling::fr_stream_val(
            crate::sampling::fr_stream_state(s0, (n + 1 + 2 * m) as nat),
            k as nat,
        )
    }
}

/// The `k`-th encryption randomizer the prover uses: a fresh draw, except
/// the diagonal slot, which is the witness's aggregate scalar.
pub open spec fn me_tau_at(s0: nat, n: nat, m: nat, rho: int, k: int) -> int {
    if k == m {
        rho
    } else {
        crate::sampling::fr_stream_val(
            crate::sampling::fr_stream_state(s0, (n + 1 + 4 * m) as nat),
            k as nat,
        )
    }
}

/// The witness's exponent rows as canonical values.
pub open spec fn me_wit_rows(w: Witness) -> Seq<Seq<int>> {
    w.matrix_a@.map(|i: int, row: Vec<ark_bn254::Fr>| vals(row@))
}

/// The extended exponent rows: the sampled masking row first, then the
/// witness rows.
pub open spec fn me_aext(s0: nat, n: nat, wits: Seq<Seq<int>>, l: int) -> Seq<int> {
    if l == 0 {
        me_a0_row(s0, n)
    } else {
        wits[l - 1]
    }
}

/// The `k`-th diagonal aggregation over the first `cnt` ciphertext rows:
/// row `i` pairs with the extended exponent row `k + i + 1 - m` when that
/// index is in range.
pub open spec fn me_diag(
    rows: Seq<Seq<(int, int)>>,
    s0: nat,
    n: nat,
    wits: Seq<Seq<int>>,
    m: nat,
    k: int,
    cnt: nat,
) -> (int, int)
    decreases cnt,
{
    if cnt == 0 {
        (0int, 0int)
    } else {
        let prev = me_diag(rows, s0, n, wits, m, k, (cnt - 1) as nat);
        let i = cnt - 1;
        let jj = k + i + 1;
        if m <= jj && jj <= 2 * m {
            cadd(prev, cpsum(rows[i as int], me_aext(s0, n, wits, jj - m), n))
        } else {
            prev
        }
    }
}

/// The opened row after folding in the first `j` witness rows:
/// `a_0 + sum x^l A_l`.
pub open spec fn me_comb_row(s0: nat, n: nat, wits: Seq<Seq<int>>, x: int, j: nat) -> Seq<int>
    decreases j,
{
    if j == 0 {
        me_a0_row(s0, n)
    } else {
        let prev = me_comb_row(s0, n, wits, x, (j - 1) as nat);
        Seq::new(n, |i: int| fadd(prev[i], fmul(fpow(x, j), wits[j - 1][i])))
    }
}

/// The opened blinder after folding in the first `j` witness blinders.
pub open spec fn me_comb_blind(s0: nat, n: nat, blinds: Seq<int>, x: int, j: nat) -> int
    decreases j,
{
    if j == 0 {
        crate::sampling::fr_stream_val(s0, n)
    } else {
        fadd(me_comb_blind(s0, n, blinds, x, (j - 1) as nat), fmul(fpow(x, j), blinds[j - 1]))
    }
}

/// The whole acceptance condition of the verifier, over the model: the
/// shapes agree and every check holds for the challenge derived from the
/// given transcript contents.
pub open spec fn me_ok(
    genc: int,
    pk: int,
    hk: int,
    gs: Seq<int>,
    mgen: int,
    rows: Seq<Seq<(int, int)>>,
    product: (int, int),
    ca: Seq<int>,
    p: Proof,
    hist0: Seq<Seq<u8>>,
) -> bool {
    &&& rows.len() >= 1
    &&& 3 * rows.len() + 3 <= usize::MAX
    &&& gs.len() >= 1
    &&& (forall|i: int| 0 <= i < rows.len() ==> (#[trigger] rows[i]).len() == gs.len())
    &&& ca.len() == rows.len()
    &&& proof_shaped(p, rows.len(), gs.len())
    &&& me_accepts(
        genc,
        pk,
        hk,
        gs,
        mgen,
        rows,
        product,
        ca,
        dlog(p.a0_commit),
        pts(p.b_commits@),
        cvs(p.diagonals@),
        vals(p.opened_a@),
        fr_val(p.opened_r),
        fr_val(p.opened_b),
        fr_val(p.opened_s),
        fr_val(p.opened_tau),
        me_challenge(hist0, product, ca, dlog(p.a0_commit), pts(p.b_commits@), cvs(p.diagonals@)),
    )
}

/// The argument.
pub struct MultiExponentiation;

impl MultiExponentiation {
    /// Produce a proof.  Succeeds exactly when the statement and witness
    /// dimensions agree with the commit key.
    pub fn prove(
        rng: &mut Sampler,
        parameters: &Parameters,
        statement: &Statement,
        witness: &Witness,
        t: &mut Transcript,
    ) -> (res: Result<Proof, CryptoError>)
        ensures
            (statement.well_formed(parameters.commit_key.spec_len())
                && witness.matrix_a@.len() == statement.shuffled_ciphers@.len()
                && witness.matrix_blinders@.len() == statement.shuffled_ciphers@.len() && (forall|
                i: int,
            |
                0 <= i < witness.matrix_a@.len() ==> (#[trigger] witness.matrix_a@[i])@.len()
                    == parameters.commit_key.spec_len())) <==> res is Ok,
            res matches Ok(p) ==> proof_shaped(
                p,
                statement.shuffled_ciphers@.len(),
                parameters.commit_key.spec_len(),
            ),
            res matches Ok(p) ==> final(t).hist() =~= me_final_hist(
                old(t).hist(),
                statement.product@,
                pts(statement.commitments_to_exponents@),
                dlog(p.a0_commit),
                pts(p.b_commits@),
                cvs(p.diagonals@),
            ) && final(t).draws() == 1,
            res is Ok ==> final(rng)@ == crate::sampling::fr_stream_state(
                old(rng)@,
                (parameters.commit_key.spec_len() + 1 + 6 * statement.shuffled_ciphers@.len()) as nat,
            ),
            res matches Ok(p) ==> ({
                let s0r = old(rng)@;
                let nn = parameters.commit_key.spec_len();
                let mm = statement.shuffled_ciphers@.len();
                let hk = dlog(parameters.commit_key.h);
                let gs = parameters.commit_key.gs_vals();
                let xch = me_challenge(
                    old(t).hist(),
                    statement.product@,
                    pts(statement.commitments_to_exponents@),
                    dlog(p.a0_commit),
                    pts(p.b_commits@),
                    cvs(p.diagonals@),
                );
                &&& dlog(p.a0_commit) == com(
                    hk,
                    gs,
                    me_a0_row(s0r, nn),
                    crate::sampling::fr_stream_val(s0r, nn),
                )
                &&& forall|k: int|
                    0 <= k < 2 * mm ==> dlog(#[trigger] p.b_commits@[k]) == com(
                        hk,
                        gs,
                        pad_first(me_b_at(s0r, nn, mm, k), nn),
                        me_s_at(s0r, nn, mm, k),
                    )
                &&& fr_val(p.opened_b) == psum(
                    Seq::new(2 * mm, |k: int| me_b_at(s0r, nn, mm, k)),
                    Seq::new(2 * mm, |k: int| fpow(xch, k as nat)),
                    2 * mm,
                )
                &&& fr_val(p.opened_s) == psum(
                    Seq::new(2 * mm, |k: int| me_s_at(s0r, nn, mm, k)),
                    Seq::new(2 * mm, |k: int| fpow(xch, k as nat)),
                    2 * mm,
                )
                &&& fr_val(p.opened_tau) == psum(
                    Seq::new(2 * mm, |k: int| me_tau_at(s0r, nn, mm, fr_val(witness.rho), k)),
                    Seq::new(2 * mm, |k: int| fpow(xch, k as nat)),
                    2 * mm,
                )
                &&& forall|k: int|
                    0 <= k < 2 * mm ==> (#[trigger] p.diagonals@[k])@ == cadd(
                        enc(
                            dlog(parameters.encrypt_parameters.generator),
                            dlog(parameters.public_key),
                            fmul(me_b_at(s0r, nn, mm, k), dlog(parameters.generator)),
                            me_tau_at(s0r, nn, mm, fr_val(witness.rho), k),
                        ),
                        me_diag(statement.spec_rows(), s0r, nn, me_wit_rows(*witness), mm, k, mm),
                    )
                &&& vals(p.opened_a@) == me_comb_row(s0r, nn, me_wit_rows(*witness), xch, mm)
                &&& fr_val(p.opened_r) == me_comb_blind(
                    s0r,
                    nn,
                    vals(witness.matrix_blinders@),
                    xch,
                    mm,
                )
            }),
            res is Err ==> is_stage_err(res, "Multi Exponentiation"@),
    {
        let ghost hist0 = t.hist();
        let ghost s0 = rng@;
        let n = parameters.commit_key.len();
        let m = statement.shuffled_ciphers.len();
        if !statement.check_well_formed(n) {
            return Err(stage_error("Multi Exponentiation"));
        }
        proof {
            let rows0 = statement.spec_rows();
            assert forall|l: int| 0 <= l < statement.shuffled_ciphers@.len() implies (
            #[trigger] statement.shuffled_ciphers@[l])@.len() == n as nat by {
                assert(rows0[l] == cvs(statement.shuffled_ciphers@[l]@));
                assert(rows0[l].len() == n);
            }
        }
        if witness.matrix_a.len() != m || witness.matrix_blinders.len() != m {
            return Err(stage_error("Multi Exponentiation"));
        }
        let mut i: usize = 0;
        let mut dims_ok = true;
        while i < m
            invariant
                i <= m,
                m == witness.matrix_a@.len(),
                n == parameters.commit_key.spec_len(),
                dims_ok <==> (forall|j: int|
                    0 <= j < i ==> (#[trigger] witness.matrix_a@[j])@.len() == n),
            decreases m - i,
        {
            if witness.matrix_a[i].len() != n {
                dims_ok = false;
            }
            i = i + 1;
        }
        if !dims_ok {
            return Err(stage_error("Multi Exponentiation"));
        }
        let twom = 2 * m;

        let a0 = sample_vector(rng, n);
        let r0 = fr_rand(rng);
        proof {
            assert(vals(a0@) =~= me_a0_row(s0, n as nat));
        }
        let a0_commit = match commit(&parameters.commit_key, &a0, &r0) {
            Ok(c) => c,
            Err(_) => {
                return Err(stage_error("Multi Exponentiation"));
            },
        };

        let mut bs = sample_vector(rng, twom);
        let mut ss = sample_vector(rng, twom);
        let mut taus = sample_vector(rng, twom);
        proof {
            crate::sampling::lemma_fr_stream_compose(s0, n as nat, 1);
            crate::sampling::lemma_fr_stream_compose(s0, (n + 1) as nat, twom as nat);
            crate::sampling::lemma_fr_stream_compose(s0, (n + 1 + twom) as nat, twom as nat);
            crate::sampling::lemma_fr_stream_compose(s0, (n + 1 + 2 * twom) as nat, twom as nat);
        }
        bs[m] = fr_zero();
        ss[m] = fr_zero();
        taus[m] = fr_copy(&witness.rho);
        let ghost bseq = Seq::new((2 * m) as nat, |k: int| me_b_at(s0, n as nat, m as nat, k));
        let ghost sseq = Seq::new((2 * m) as nat, |k: int| me_s_at(s0, n as nat, m as nat, k));
        let ghost tauseq = Seq::new(
            (2 * m) as nat,
            |k: int| me_tau_at(s0, n as nat, m as nat, fr_val(witness.rho), k),
        );
        proof {
            assert(vals(bs@) =~= bseq);
            assert(vals(ss@) =~= sseq);
            assert(vals(taus@) =~= tauseq);
        }

        let ghost hk = dlog(parameters.commit_key.h);
        let ghost gs0 = parameters.commit_key.gs_vals();
        let mut b_commits: Vec<GroupElem> = Vec::new();
        let mut k: usize = 0;
        while k < twom
            invariant
                k <= twom,
                twom == 2 * m,
                bs@.len() == twom,
                ss@.len() == twom,
                vals(bs@) == bseq,
                vals(ss@) == sseq,
                hk == dlog(parameters.commit_key.h),
                gs0 == parameters.commit_key.gs_vals(),
                n == parameters.commit_key.spec_len(),
                n >= 1,
                b_commits@.len() == k,
                forall|l: int|
                    0 <= l < k ==> dlog(#[trigger] b_commits@[l]) == com(
                        hk,
                        gs0,
                        pad_first(bseq[l], n as nat),
                        sseq[l],
                    ),
            decreases twom - k,
        {
            let padded = pad_first_vector(&bs[k], n);
            let c = match commit(&parameters.commit_key, &padded, &ss[k]) {
                Ok(c) => c,
                Err(_) => {
                    return Err(stage_error("Multi Exponentiation"));
                },
            };
            proof {
                assert(bseq[k as int] == fr_val(bs@[k as int]));
                assert(sseq[k as int] == fr_val(ss@[k as int]));
            }
            b_commits.push(c);
            k = k + 1;
        }

        let ghost rows = statement.spec_rows();
        let ghost wits = me_wit_rows(*witness);
        proof {
            assert forall|l: int| 0 <= l < m implies #[trigger] wits[l] == vals(
                witness.matrix_a@[l]@,
            ) by {}
        }
        let mut diagonals: Vec<Ciphertext> = Vec::new();
        let mut k: usize = 0;
        while k < twom
            invariant
                k <= twom,
                twom == 2 * m,
                m == statement.shuffled_ciphers@.len(),
                m == witness.matrix_a@.len(),
                statement.well_formed(n as nat),
                rows == statement.spec_rows(),
                wits == me_wit_rows(*witness),
                vals(a0@) == me_a0_row(s0, n as nat),
                vals(bs@) == bseq,
                vals(taus@) == tauseq,
                forall|l: int|
                    0 <= l < m ==> (#[trigger] statement.shuffled_ciphers@[l])@.len() == n,
                forall|j: int|
                    0 <= j < m ==> (#[trigger] witness.matrix_a@[j])@.len() == n,
                a0@.len() == n,
                bs@.len() == twom,
                taus@.len() == twom,
                diagonals@.len() == k,
                forall|l: int|
                    0 <= l < k ==> (#[trigger] diagonals@[l])@ == cadd(
                        enc(
                            dlog(parameters.encrypt_parameters.generator),
                            dlog(parameters.public_key),
                            fmul(bseq[l], dlog(parameters.generator)),
                            tauseq[l],
                        ),
                        me_diag(rows, s0, n as nat, wits, m as nat, l, m as nat),
                    ),
            decreases twom - k,
        {
            let mut acc = Ciphertext::zero();
            let mut i: usize = 0;
            while i < m
                invariant
                    i <= m,
                    k < twom,
                    twom == 2 * m,
                    m == statement.shuffled_ciphers@.len(),
                    m == witness.matrix_a@.len(),
                    statement.well_formed(n as nat),
                    rows == statement.spec_rows(),
                    wits == me_wit_rows(*witness),
                    vals(a0@) == me_a0_row(s0, n as nat),
                    forall|l: int|
                        0 <= l < m ==> (#[trigger] statement.shuffled_ciphers@[l])@.len() == n,
                    forall|j: int|
                        0 <= j < m ==> (#[trigger] witness.matrix_a@[j])@.len() == n,
                    a0@.len() == n,
                    acc@ == me_diag(rows, s0, n as nat, wits, m as nat, k as int, i as nat),
                decreases m - i,
            {
                let jj = k + i + 1;
                if jj >= m && jj <= twom {
                    let j = jj - m;
                    let row = &statement.shuffled_ciphers[i];
                    let term = if j == 0 {
                        cipher_msm(row, &a0)
                    } else {
                        cipher_msm(row, &witness.matrix_a[j - 1])
                    };
                    proof {
                        assert(rows[i as int] == cvs(statement.shuffled_ciphers@[i as int]@));
                        if j != 0 {
                            assert(wits[j - 1] == vals(witness.matrix_a@[j - 1]@));
                        }
                        assert(term@ == cpsum(
                            rows[i as int],
                            me_aext(s0, n as nat, wits, jj - m),
                            n as nat,
                        ));
                    }
                    acc = acc.add_cipher(&term);
                }
                i = i + 1;
            }
            let lifted = g1_mul(&bs[k], &parameters.generator);
            let masked = crate::elgamal::encrypt(
                &parameters.encrypt_parameters,
                &parameters.public_key,
                &lifted,
                &taus[k],
            );
            diagonals.push(masked.add_cipher(&acc));
            proof {
                assert(bseq[k as int] == fr_val(bs@[k as int]));
                assert(tauseq[k as int] == fr_val(taus@[k as int]));
            }
            k = k + 1;
        }

        t.absorb_ciphertext(&statement.product);
        t.absorb_points(&statement.commitments_to_exponents);
        t.absorb_point(&a0_commit);
        t.absorb_points(&b_commits);
        t.absorb_ciphertexts(&diagonals);
        proof {
            assert(t.hist() =~= hist0 + seq![
                ser_cipher(statement.product@),
                ser_points(pts(statement.commitments_to_exponents@)),
                crate::group::ser_g1(dlog(a0_commit)),
                ser_points(pts(b_commits@)),
                ser_ciphers(cvs(diagonals@)),
            ]);
        }
        let x = t.challenge();
        let ghost xv = fr_val(x);
        let xs = scalar_powers(&x, twom);

        let mut opened_a = vec_dup(&a0);
        let mut opened_r = fr_copy(&r0);
        let ghost blinds = vals(witness.matrix_blinders@);
        proof {
            assert(vals(opened_a@) =~= me_comb_row(s0, n as nat, wits, xv, 0));
        }
        let mut j: usize = 1;
        while j <= m
            invariant
                1 <= j <= m + 1,
                m == witness.matrix_a@.len(),
                m == witness.matrix_blinders@.len(),
                xs@.len() == twom,
                twom == 2 * m,
                m >= 1,
                xv == fr_val(x),
                wits == me_wit_rows(*witness),
                blinds == vals(witness.matrix_blinders@),
                forall|l: int| 0 <= l < twom ==> fr_val(#[trigger] xs@[l]) == fpow(xv, l as nat),
                forall|l: int|
                    0 <= l < m ==> (#[trigger] witness.matrix_a@[l])@.len() == n,
                opened_a@.len() == n,
                vals(opened_a@) == me_comb_row(s0, n as nat, wits, xv, (j - 1) as nat),
                fr_val(opened_r) == me_comb_blind(s0, n as nat, blinds, xv, (j - 1) as nat),
            decreases m + 1 - j,
        {
            proof {
                assert(j < twom);
            }
            let scaled = vec_scale(&xs[j], &witness.matrix_a[j - 1]);
            let ghost prev = vals(opened_a@);
            opened_a = vec_add(&opened_a, &scaled);
            proof {
                assert(wits[j - 1] == vals(witness.matrix_a@[j - 1]@));
                assert forall|i: int| 0 <= i < n implies vals(opened_a@)[i] == fadd(
                    prev[i],
                    fmul(fpow(xv, j as nat), wits[j - 1][i]),
                ) by {
                    assert(vals(opened_a@)[i] == fr_val(opened_a@[i]));
                    assert(fr_val(scaled@[i]) == fmul(fr_val(xs@[j as int]), fr_val(
                        witness.matrix_a@[j - 1]@[i],
                    )));
                    assert(wits[j - 1][i] == fr_val(witness.matrix_a@[j - 1]@[i]));
                }
                assert(vals(opened_a@) =~= me_comb_row(s0, n as nat, wits, xv, j as nat));
            }
            opened_r = fr_add(&opened_r, &fr_mul(&xs[j], &witness.matrix_blinders[j - 1]));
            proof {
                assert(blinds[j - 1] == fr_val(witness.matrix_blinders@[j - 1]));
                assert(fr_val(opened_r) == me_comb_blind(s0, n as nat, blinds, xv, j as nat));
            }
            j = j + 1;
        }

        let opened_b = scalar_dot(&xs, &bs);
        let opened_s = scalar_dot(&xs, &ss);
        let opened_tau = scalar_dot(&xs, &taus);
        proof {
            let xpows = Seq::new((2 * m) as nat, |k: int| fpow(xv, k as nat));
            assert(vals(xs@) =~= xpows);
            crate::algebra::lemma_psum_congruence(vals(bs@), vals(xs@), bseq, xpows, (2 * m) as nat);
            crate::algebra::lemma_psum_congruence(vals(ss@), vals(xs@), sseq, xpows, (2 * m) as nat);
            crate::algebra::lemma_psum_congruence(
                vals(taus@),
                vals(xs@),
                tauseq,
                xpows,
                (2 * m) as nat,
            );
        }

        Ok(
            Proof {
                a0_commit,
                b_commits,
                diagonals,
                opened_a,
                opened_r,
                opened_b,
                opened_s,
                opened_tau,
            },
        )
    }

    /// Verify a proof.  Accepts exactly when the statement and proof are
    /// well shaped and every check of [`me_accepts`] holds for the
    /// challenge derived from the transcript.
    pub fn verify(
        parameters: &Parameters,
        statement: &Statement,
        proof: &Proof,
        t: &mut Transcript,
    ) -> (res: Result<(), CryptoError>)
        ensures
            res is Ok <==> me_ok(
                dlog(parameters.encrypt_parameters.generator),
                dlog(parameters.public_key),
                dlog(parameters.commit_key.h),
                parameters.commit_key.gs_vals(),
                dlog(parameters.generator),
                statement.spec_rows(),
                statement.product@,
                pts(statement.commitments_to_exponents@),
                *proof,
                old(t).hist(),
            ),
            res is Ok ==> final(t).hist() =~= me_final_hist(
                old(t).hist(),
                statement.product@,
                pts(statement.commitments_to_exponents@),
                dlog(proof.a0_commit),
                pts(proof.b_commits@),
                cvs(proof.diagonals@),
            ) && final(t).draws() == 1,
            res is Err ==> is_stage_err(res, "Multi Exponentiation"@),
    {
        let ghost hist0 = t.hist();
        let ghost rows = statement.spec_rows();
        proof {
            assert forall|i: int| 0 <= i < rows.len() implies (#[trigger] rows[i]).len()
                == statement.shuffled_ciphers@[i]@.len() by {
                assert(rows[i] == cvs(statement.shuffled_ciphers@[i]@));
            }
        }
        let n = parameters.commit_key.len();
        let m = statement.shuffled_ciphers.len();
        if !statement.check_well_formed(n) {
            return Err(stage_error("Multi Exponentiation"));
        }
        proof {
            assert forall|l: int| 0 <= l < statement.shuffled_ciphers@.len() implies (
            #[trigger] statement.shuffled_ciphers@[l])@.len() == n as nat by {
                assert(rows[l] == cvs(statement.shuffled_ciphers@[l]@));
                assert(rows[l].len() == n);
            }
        }
        let twom = 2 * m;
        if proof.b_commits.len() != twom || proof.diagonals.len() != twom || proof.opened_a.len()
            != n {
            return Err(stage_error("Multi Exponentiation"));
        }

        let ghost gs = parameters.commit_key.gs_vals();
        let ghost hk = dlog(parameters.commit_key.h);

        // The diagonal-slot commitment must open to zero with a zero
        // blinder.
        let zerovec = zero_vector(n);
        let zc = match commit(&parameters.commit_key, &zerovec, &fr_zero()) {
            Ok(c) => c,
            Err(_) => {
                return Err(stage_error("Multi Exponentiation"));
            },
        };
        let check_zero_slot = g1_eq(&proof.b_commits[m], &zc);
        proof {
            assert(vals(zerovec@) =~= zero_seq(n as nat));
        }

        // The central diagonal must be the statement product.
        let check_center = proof.diagonals[m].eq_cipher(&statement.product);

        t.absorb_ciphertext(&statement.product);
        t.absorb_points(&statement.commitments_to_exponents);
        t.absorb_point(&proof.a0_commit);
        t.absorb_points(&proof.b_commits);
        t.absorb_ciphertexts(&proof.diagonals);
        proof {
            assert(t.hist() =~= hist0 + seq![
                ser_cipher(statement.product@),
                ser_points(pts(statement.commitments_to_exponents@)),
                crate::group::ser_g1(dlog(proof.a0_commit)),
                ser_points(pts(proof.b_commits@)),
                ser_ciphers(cvs(proof.diagonals@)),
            ]);
        }
        let x = t.challenge();
        let ghost xv = fr_val(x);
        let xs = scalar_powers(&x, twom);

        // First commitment identity: the opened row against the
        // x-combination of the row commitments.
        let oc = match commit(&parameters.commit_key, &proof.opened_a, &proof.opened_r) {
            Ok(c) => c,
            Err(_) => {
                return Err(stage_error("Multi Exponentiation"));
            },
        };
        let xs_mid = vec_slice(&xs, 1, m + 1);
        let combo = msm(&statement.commitments_to_exponents, &xs_mid);
        let rhs1 = crate::group::g1_add(&proof.a0_commit, &combo);
        let check_rows = g1_eq(&oc, &rhs1);
        proof {
            assert(vals(xs_mid@) =~= Seq::new(m as nat, |j: int| fpow(xv, (j + 1) as nat)));
            crate::algebra::lemma_psum_congruence(
                pts(statement.commitments_to_exponents@),
                vals(xs_mid@),
                pts(statement.commitments_to_exponents@),
                Seq::new(m as nat, |j: int| fpow(xv, (j + 1) as nat)),
                m as nat,
            );
            crate::zq::lemma_canonical_mod(
                fadd(
                    dlog(proof.a0_commit),
                    psum(
                        pts(statement.commitments_to_exponents@),
                        Seq::new(m as nat, |j: int| fpow(xv, (j + 1) as nat)),
                        m as nat,
                    ),
                ),
            );
        }

        // Second commitment identity: the opened scalar against the
        // x-combination of the b commitments.
        let padded = pad_first_vector(&proof.opened_b, n);
        let ocb = match commit(&parameters.commit_key, &padded, &proof.opened_s) {
            Ok(c) => c,
            Err(_) => {
                return Err(stage_error("Multi Exponentiation"));
            },
        };
        let rhs2 = msm(&proof.b_commits, &xs);
        let check_bs = g1_eq(&ocb, &rhs2);
        proof {
            assert(vals(xs@) =~= Seq::new((2 * m) as nat, |k: int| fpow(xv, k as nat)));
            crate::algebra::lemma_psum_congruence(
                pts(proof.b_commits@),
                vals(xs@),
                pts(proof.b_commits@),
                Seq::new((2 * m) as nat, |k: int| fpow(xv, k as nat)),
                (2 * m) as nat,
            );
        }

        // Homomorphic identity over the diagonals.
        let lifted = g1_mul(&proof.opened_b, &parameters.generator);
        let masked = crate::elgamal::encrypt(
            &parameters.encrypt_parameters,
            &parameters.public_key,
            &lifted,
            &proof.opened_tau,
        );
        let mut agg = Ciphertext::zero();
        let mut i: usize = 0;
        while i < m
            invariant
                i <= m,
                m == statement.shuffled_ciphers@.len(),
                statement.well_formed(n as nat),
                forall|l: int|
                    0 <= l < m ==> (#[trigger] statement.shuffled_ciphers@[l])@.len() == n,
                rows == statement.spec_rows(),
                proof.opened_a@.len() == n,
                xs@.len() == twom,
                twom == 2 * m,
                forall|l: int| 0 <= l < twom ==> fr_val(#[trigger] xs@[l]) == fpow(xv, l as nat),
                agg@ == cpsum(
                    Seq::new(m as nat, |l: int| cpsum(rows[l], vals(proof.opened_a@), n as nat)),
                    Seq::new(m as nat, |l: int| fpow(xv, (m - 1 - l) as nat)),
                    i as nat,
                ),
            decreases m - i,
        {
            let rowdot = cipher_msm(&statement.shuffled_ciphers[i], &proof.opened_a);
            let term = rowdot.scale(&xs[m - 1 - i]);
            agg = agg.add_cipher(&term);
            i = i + 1;
        }
        let lhs5 = masked.add_cipher(&agg);
        let rhs5 = cipher_msm(&proof.diagonals, &xs);
        let check_diag = lhs5.eq_cipher(&rhs5);
        proof {
            crate::matrix::lemma_cpsum_congruence(
                cvs(proof.diagonals@),
                vals(xs@),
                cvs(proof.diagonals@),
                Seq::new((2 * m) as nat, |k: int| fpow(xv, k as nat)),
                (2 * m) as nat,
            );
        }

        if check_zero_slot && check_center && check_rows && check_bs && check_diag {
            Ok(())
        } else {
            Err(stage_error("Multi Exponentiation"))
        }
    }
}

} // verus!
