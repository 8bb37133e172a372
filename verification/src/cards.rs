//! The card-protocol facade: setup, player keys, joint-key aggregation,
//! masking, remasking, reveal tokens, unmasking and verifiable shuffling.
//!
//! A card is a plaintext group element; a masked card is an ElGamal
//! ciphertext of it under the joint public key, which is the sum of the
//! players' public keys; a reveal token is one player's share
//! `sk * c1` of the decryption of a masked card, accompanied by a
//! Chaum-Pedersen proof.

use vstd::prelude::*;
use vstd::string::StringSliceAdditionalSpecFns;
use vstd::string::StrSliceExecFns;

use crate::algebra::fsum;
use crate::arguments::shuffle::{self, sh_ok, ShuffleArgument};
use crate::chaum_pedersen::{self, cp_accepts, cp_challenge};
use crate::elgamal::{self, cadd, dec, enc, Ciphertext};
use crate::error::{is_stage_err, CardProtocolError, CryptoError};
use crate::group::{
    dlog, fr_val, g1_add, g1_copy, g1_mul, g1_neg, g1_rand, g1_zero, GroupElem, Sampler,
};
use crate::pedersen::{self, CommitKey};
use crate::sampling::{g1_stream_state, g1_stream_val, lemma_g1_stream_compose};
use crate::permutation::Permutation;
use crate::schnorr::{self, schnorr_accepts};
use crate::transcript::Transcript;
use crate::zq::{fadd, fmul, fsub, in_f, lemma_fadd_fneg, lemma_fmul_mod_noop, q};

verus! {

/// The parameters of a game: matrix dimensions, encryption parameters, a
/// commit key of length `n` and the masking generator.
pub struct CardParameters {
    pub m: usize,
    pub n: usize,
    pub enc_parameters: elgamal::Parameters,
    pub commit_key: CommitKey,
    pub generator: GroupElem,
}

impl CardParameters {
    /// The deck size `m * n`.
    pub open spec fn deck_size(&self) -> int {
        self.m * self.n
    }
}

/// The transcript seed of the shuffle argument: a fixed protocol tag.
pub open spec fn spec_shuffle_seed() -> Seq<u8> {
    "shuffle deck".spec_bytes()
}

fn shuffle_seed() -> (r: Vec<u8>)
    ensures
        r@ == spec_shuffle_seed(),
{
    "shuffle deck".as_bytes_vec()
}

/// Generate the game parameters: fresh independent generators throughout,
/// a commit key of length `n`, every generator taken in order from the
/// generator's point stream.  Fails exactly when a dimension is below two.
pub fn setup(rng: &mut Sampler, m: usize, n: usize) -> (r: Result<
    CardParameters,
    CardProtocolError,
>)
    ensures
        (m >= 2 && n >= 2 && 3 * (m as int) + 3 <= usize::MAX) <==> r is Ok,
        r matches Ok(pp) ==> pp.m == m && pp.n == n && pp.commit_key.spec_len() == n
            && dlog(pp.enc_parameters.generator) == g1_stream_val(old(rng)@, 0)
            && dlog(pp.commit_key.h) == g1_stream_val(old(rng)@, 1) && (forall|i: int|
            0 <= i < n ==> dlog(#[trigger] pp.commit_key.gs@[i]) == g1_stream_val(
                old(rng)@,
                (i + 2) as nat,
            )) && dlog(pp.generator) == g1_stream_val(old(rng)@, (n + 2) as nat) && final(rng)@
            == g1_stream_state(old(rng)@, (n + 3) as nat),
        r matches Err(e) ==> e == CardProtocolError::ProofVerificationError(
            CryptoError::CommitKeyTooShort,
        ),
{
    if m < 2 || n < 2 {
        return Err(CardProtocolError::ProofVerificationError(CryptoError::CommitKeyTooShort));
    }
    if m > (usize::MAX - 3) / 3 {
        proof {
            assert(3 * (((usize::MAX - 3) / 3) as int) <= usize::MAX - 3) by (nonlinear_arith);
        }
        return Err(CardProtocolError::ProofVerificationError(CryptoError::CommitKeyTooShort));
    }
    proof {
        assert(m <= (usize::MAX - 3) / 3 ==> 3 * (m as int) + 3 <= usize::MAX) by (nonlinear_arith);
    }
    let ghost s0 = rng@;
    let enc_parameters = elgamal::setup(rng);
    proof {
        assert(g1_stream_state(s0, 0) == s0);
        assert(g1_stream_state(s0, 1) == crate::group::g1_draw_next(s0));
    }
    let commit_key = pedersen::setup(rng, n);
    proof {
        lemma_g1_stream_compose(s0, 1, (n + 1) as nat);
        assert forall|i: int| 0 <= i < n implies dlog(#[trigger] commit_key.gs@[i])
            == g1_stream_val(s0, (i + 2) as nat) by {
            lemma_g1_stream_compose(s0, 1, (i + 1) as nat);
        }
        lemma_g1_stream_compose(s0, 1, 0);
    }
    let generator = g1_rand(rng);
    proof {
        assert(g1_stream_state(s0, (n + 3) as nat) == crate::group::g1_draw_next(
            g1_stream_state(s0, (n + 2) as nat),
        ));
    }
    Ok(CardParameters { m, n, enc_parameters, commit_key, generator })
}

/// Sample one player's key pair under the game parameters: the secret key
/// is the generator's next scalar draw, the public key its multiple of the
/// scheme generator.
pub fn player_keygen(rng: &mut Sampler, pp: &CardParameters) -> (r: (GroupElem, ark_bn254::Fr))
    ensures
        fr_val(r.1) == crate::group::fr_draw(old(rng)@),
        dlog(r.0) == fmul(fr_val(r.1), dlog(pp.enc_parameters.generator)),
        in_f(fr_val(r.1)),
        final(rng)@ == crate::group::fr_draw_next(old(rng)@),
{
    elgamal::keygen(&pp.enc_parameters, rng)
}

/// Prove knowledge of the secret key behind a public key, bound to a
/// label.
pub fn prove_key_ownership(
    rng: &mut Sampler,
    pp: &CardParameters,
    pk: &GroupElem,
    sk: &ark_bn254::Fr,
    label: &Vec<u8>,
) -> (r: schnorr::Proof)
    ensures
        dlog(r.announcement) == fmul(
            crate::group::fr_draw(old(rng)@),
            dlog(pp.enc_parameters.generator),
        ),
        fr_val(r.response) == fadd(
            crate::group::fr_draw(old(rng)@),
            fmul(
                crate::schnorr::schnorr_challenge(
                    label@,
                    dlog(pp.enc_parameters.generator),
                    dlog(*pk),
                    dlog(r.announcement),
                ),
                fr_val(*sk),
            ),
        ),
        final(rng)@ == crate::group::fr_draw_next(old(rng)@),
        schnorr_accepts(
            label@,
            dlog(pp.enc_parameters.generator),
            dlog(*pk),
            dlog(r.announcement),
            fr_val(r.response),
        ) || dlog(*pk) != fmul(fr_val(*sk), dlog(pp.enc_parameters.generator)),
{
    let r = schnorr::prove(rng, &pp.enc_parameters.generator, pk, sk, label);
    proof {
        if dlog(*pk) == fmul(fr_val(*sk), dlog(pp.enc_parameters.generator)) {
            schnorr::lemma_schnorr_completeness(
                label@,
                dlog(pp.enc_parameters.generator),
                fr_val(*sk),
                crate::group::fr_draw(old(rng)@),
            );
        }
    }
    r
}

/// Verify a key-ownership proof under its label.
pub fn verify_key_ownership(
    pp: &CardParameters,
    pk: &GroupElem,
    label: &Vec<u8>,
    proof: &schnorr::Proof,
) -> (r: Result<(), CryptoError>)
    ensures
        r is Ok <==> schnorr_accepts(
            label@,
            dlog(pp.enc_parameters.generator),
            dlog(*pk),
            dlog(proof.announcement),
            fr_val(proof.response),
        ),
        r is Err ==> is_stage_err(r, "Schnorr"@),
{
    schnorr::verify(&pp.enc_parameters.generator, pk, label, proof)
}

/// Whether the first `k` key-ownership proofs all pass their checks.
pub open spec fn all_keys_valid(
    players: Seq<(GroupElem, schnorr::Proof, Vec<u8>)>,
    gen: int,
    k: nat,
) -> bool {
    forall|i: int|
        0 <= i < k ==> schnorr_accepts(
            (#[trigger] players[i]).2@,
            gen,
            dlog(players[i].0),
            dlog(players[i].1.announcement),
            fr_val(players[i].1.response),
        )
}

/// The sum of the first `k` public keys, over discrete logarithms.
pub open spec fn key_sum(players: Seq<(GroupElem, schnorr::Proof, Vec<u8>)>, k: nat) -> int
    decreases k,
{
    if k == 0 {
        0
    } else {
        fadd(key_sum(players, (k - 1) as nat), dlog(players[k - 1].0))
    }
}

/// Aggregate the joint public key.  Verifies every player's key-ownership
/// proof, in order, and fails on the first invalid one; on success the
/// joint key is the sum of the public keys.
pub fn compute_aggregate_key(
    pp: &CardParameters,
    players: &Vec<(GroupElem, schnorr::Proof, Vec<u8>)>,
) -> (r: Result<GroupElem, CryptoError>)
    ensures
        r is Ok <==> all_keys_valid(players@, dlog(pp.enc_parameters.generator), players@.len()),
        r matches Ok(key) ==> dlog(key) == key_sum(players@, players@.len()),
        r is Err ==> is_stage_err(r, "Schnorr"@),
{
    let mut acc = g1_zero();
    let mut i: usize = 0;
    while i < players.len()
        invariant
            i <= players@.len(),
            all_keys_valid(players@, dlog(pp.enc_parameters.generator), i as nat),
            dlog(acc) == key_sum(players@, i as nat),
        decreases players@.len() - i,
    {
        let entry = &players[i];
        match schnorr::verify(&pp.enc_parameters.generator, &entry.0, &entry.2, &entry.1) {
            Ok(_) => (),
            Err(e) => {
                return Err(e);
            },
        }
        acc = g1_add(&acc, &entry.0);
        i = i + 1;
    }
    Ok(acc)
}

/// Mask a card: encrypt it under the joint key with the given scalar, with
/// a Chaum-Pedersen proof that the same scalar stands under both bases.
/// The proof witnesses the blinding scalar: it passes exactly the check
/// that [`verify_mask`] performs.
pub fn mask(
    rng: &mut Sampler,
    pp: &CardParameters,
    shared_key: &GroupElem,
    card: &GroupElem,
    r: &ark_bn254::Fr,
) -> (res: (Ciphertext, chaum_pedersen::Proof))
    ensures
        res.0@ == enc(dlog(pp.enc_parameters.generator), dlog(*shared_key), dlog(*card), fr_val(*r)),
        in_f(dlog(*card)) ==> cp_accepts(
            dlog(pp.enc_parameters.generator),
            dlog(*shared_key),
            res.0@.0,
            fsub(res.0@.1, dlog(*card)),
            dlog(res.1.a1),
            dlog(res.1.a2),
            fr_val(res.1.response),
        ),
        final(rng)@ == crate::group::fr_draw_next(old(rng)@),
{
    let cipher = elgamal::encrypt(&pp.enc_parameters, shared_key, card, r);
    let diff = g1_add(&cipher.c2, &g1_neg(card));
    proof {
        lemma_fadd_fneg(dlog(cipher.c2), dlog(*card));
    }
    let proof = chaum_pedersen::prove(
        rng,
        &pp.enc_parameters.generator,
        shared_key,
        &cipher.c1,
        &diff,
        r,
    );
    proof {
        if in_f(dlog(*card)) {
            lemma_mask_proof_verifies(
                dlog(pp.enc_parameters.generator),
                dlog(*shared_key),
                dlog(*card),
                fr_val(*r),
                crate::group::fr_draw(old(rng)@),
            );
        }
    }
    (cipher, proof)
}

/// Verify a masking proof: the ciphertext's first component and the offset
/// of its second component from the card share a discrete logarithm under
/// the generator and the joint key.
pub fn verify_mask(
    pp: &CardParameters,
    shared_key: &GroupElem,
    card: &GroupElem,
    masked: &Ciphertext,
    proof: &chaum_pedersen::Proof,
) -> (r: Result<(), CryptoError>)
    ensures
        r is Ok <==> cp_accepts(
            dlog(pp.enc_parameters.generator),
            dlog(*shared_key),
            dlog(masked.c1),
            fsub(dlog(masked.c2), dlog(*card)),
            dlog(proof.a1),
            dlog(proof.a2),
            fr_val(proof.response),
        ),
        r is Err ==> is_stage_err(r, "Chaum-Pedersen"@),
{
    let diff = g1_add(&masked.c2, &g1_neg(card));
    proof {
        lemma_fadd_fneg(dlog(masked.c2), dlog(*card));
    }
    chaum_pedersen::verify(&pp.enc_parameters.generator, shared_key, &masked.c1, &diff, proof)
}

/// Remask a masked card: add an encryption of the identity with a fresh
/// scalar, with a Chaum-Pedersen proof for the difference.  The proof
/// witnesses the fresh scalar: it passes exactly the check that
/// [`verify_remask`] performs.
pub fn remask(
    rng: &mut Sampler,
    pp: &CardParameters,
    shared_key: &GroupElem,
    original: &Ciphertext,
    alpha: &ark_bn254::Fr,
) -> (res: (Ciphertext, chaum_pedersen::Proof))
    ensures
        res.0@ == cadd(
            original@,
            enc(dlog(pp.enc_parameters.generator), dlog(*shared_key), 0, fr_val(*alpha)),
        ),
        in_f(original@.0) && in_f(original@.1) ==> cp_accepts(
            dlog(pp.enc_parameters.generator),
            dlog(*shared_key),
            fsub(res.0@.0, original@.0),
            fsub(res.0@.1, original@.1),
            dlog(res.1.a1),
            dlog(res.1.a2),
            fr_val(res.1.response),
        ),
        final(rng)@ == crate::group::fr_draw_next(old(rng)@),
{
    let zero_plain = g1_zero();
    let masking = elgamal::encrypt(&pp.enc_parameters, shared_key, &zero_plain, alpha);
    let remasked = original.add_cipher(&masking);
    let diff1 = g1_add(&remasked.c1, &g1_neg(&original.c1));
    let diff2 = g1_add(&remasked.c2, &g1_neg(&original.c2));
    proof {
        lemma_fadd_fneg(dlog(remasked.c1), dlog(original.c1));
        lemma_fadd_fneg(dlog(remasked.c2), dlog(original.c2));
    }
    let proof = chaum_pedersen::prove(
        rng,
        &pp.enc_parameters.generator,
        shared_key,
        &diff1,
        &diff2,
        alpha,
    );
    proof {
        if in_f(original@.0) && in_f(original@.1) {
            lemma_remask_proof_verifies(
                dlog(pp.enc_parameters.generator),
                dlog(*shared_key),
                original@,
                fr_val(*alpha),
                crate::group::fr_draw(old(rng)@),
            );
        }
    }
    (remasked, proof)
}

/// Verify a remasking proof: the component-wise difference of the two
/// masked cards shares a discrete logarithm under the generator and the
/// joint key.
pub fn verify_remask(
    pp: &CardParameters,
    shared_key: &GroupElem,
    original: &Ciphertext,
    remasked: &Ciphertext,
    proof: &chaum_pedersen::Proof,
) -> (r: Result<(), CryptoError>)
    ensures
        r is Ok <==> cp_accepts(
            dlog(pp.enc_parameters.generator),
            dlog(*shared_key),
            fsub(dlog(remasked.c1), dlog(original.c1)),
            fsub(dlog(remasked.c2), dlog(original.c2)),
            dlog(proof.a1),
            dlog(proof.a2),
            fr_val(proof.response),
        ),
        r is Err ==> is_stage_err(r, "Chaum-Pedersen"@),
{
    let diff1 = g1_add(&remasked.c1, &g1_neg(&original.c1));
    let diff2 = g1_add(&remasked.c2, &g1_neg(&original.c2));
    proof {
        lemma_fadd_fneg(dlog(remasked.c1), dlog(original.c1));
        lemma_fadd_fneg(dlog(remasked.c2), dlog(original.c2));
    }
    chaum_pedersen::verify(&pp.enc_parameters.generator, shared_key, &diff1, &diff2, proof)
}

/// Compute this player's reveal token for a masked card: `sk * c1`, with a
/// proof that the token and the public key share the secret key as
/// discrete logarithm under their bases.
pub fn compute_reveal_token(
    rng: &mut Sampler,
    pp: &CardParameters,
    sk: &ark_bn254::Fr,
    pk: &GroupElem,
    masked: &Ciphertext,
) -> (res: (GroupElem, chaum_pedersen::Proof))
    ensures
        dlog(res.0) == fmul(fr_val(*sk), dlog(masked.c1)),
        dlog(*pk) == fmul(fr_val(*sk), dlog(pp.enc_parameters.generator)) ==> cp_accepts(
            dlog(pp.enc_parameters.generator),
            dlog(masked.c1),
            dlog(*pk),
            dlog(res.0),
            dlog(res.1.a1),
            dlog(res.1.a2),
            fr_val(res.1.response),
        ),
        final(rng)@ == crate::group::fr_draw_next(old(rng)@),
{
    let token = g1_mul(sk, &masked.c1);
    let proof = chaum_pedersen::prove(rng, &pp.enc_parameters.generator, &masked.c1, pk, &token, sk);
    proof {
        if dlog(*pk) == fmul(fr_val(*sk), dlog(pp.enc_parameters.generator)) {
            chaum_pedersen::lemma_cp_completeness(
                dlog(pp.enc_parameters.generator),
                dlog(masked.c1),
                fr_val(*sk),
                crate::group::fr_draw(old(rng)@),
            );
        }
    }
    (token, proof)
}

/// Verify a reveal token's proof.
pub fn verify_reveal(
    pp: &CardParameters,
    pk: &GroupElem,
    token: &GroupElem,
    masked: &Ciphertext,
    proof: &chaum_pedersen::Proof,
) -> (r: Result<(), CryptoError>)
    ensures
        r is Ok <==> cp_accepts(
            dlog(pp.enc_parameters.generator),
            dlog(masked.c1),
            dlog(*pk),
            dlog(*token),
            dlog(proof.a1),
            dlog(proof.a2),
            fr_val(proof.response),
        ),
        r is Err ==> is_stage_err(r, "Chaum-Pedersen"@),
{
    chaum_pedersen::verify(&pp.enc_parameters.generator, &masked.c1, pk, token, proof)
}

/// Whether the first `k` reveal tokens carry valid proofs for the masked
/// card.
pub open spec fn all_tokens_valid(
    tokens: Seq<(GroupElem, chaum_pedersen::Proof, GroupElem)>,
    gen: int,
    c1: int,
    k: nat,
) -> bool {
    forall|i: int|
        0 <= i < k ==> cp_accepts(
            gen,
            c1,
            dlog((#[trigger] tokens[i]).2),
            dlog(tokens[i].0),
            dlog(tokens[i].1.a1),
            dlog(tokens[i].1.a2),
            fr_val(tokens[i].1.response),
        )
}

/// The sum of the first `k` reveal tokens, over discrete logarithms.
pub open spec fn token_sum(tokens: Seq<(GroupElem, chaum_pedersen::Proof, GroupElem)>, k: nat) -> int
    decreases k,
{
    if k == 0 {
        0
    } else {
        fadd(token_sum(tokens, (k - 1) as nat), dlog(tokens[k - 1].0))
    }
}

/// Unmask a masked card with the players' reveal tokens.  Verifies every
/// token proof, in order, and fails on the first invalid one; on success
/// the card is `c2` minus the sum of the tokens.
pub fn unmask(
    pp: &CardParameters,
    tokens: &Vec<(GroupElem, chaum_pedersen::Proof, GroupElem)>,
    masked: &Ciphertext,
) -> (r: Result<GroupElem, CryptoError>)
    ensures
        r is Ok <==> all_tokens_valid(
            tokens@,
            dlog(pp.enc_parameters.generator),
            dlog(masked.c1),
            tokens@.len(),
        ),
        r matches Ok(card) ==> dlog(card) == fsub(
            dlog(masked.c2),
            token_sum(tokens@, tokens@.len()),
        ),
        r is Err ==> is_stage_err(r, "Chaum-Pedersen"@),
{
    let mut acc = g1_zero();
    let mut i: usize = 0;
    while i < tokens.len()
        invariant
            i <= tokens@.len(),
            all_tokens_valid(
                tokens@,
                dlog(pp.enc_parameters.generator),
                dlog(masked.c1),
                i as nat,
            ),
            dlog(acc) == token_sum(tokens@, i as nat),
        decreases tokens@.len() - i,
    {
        let entry = &tokens[i];
        match verify_reveal(pp, &entry.2, &entry.0, masked, &entry.1) {
            Ok(_) => (),
            Err(e) => {
                return Err(e);
            },
        }
        acc = g1_add(&acc, &entry.0);
        i = i + 1;
    }
    let card = g1_add(&masked.c2, &g1_neg(&acc));
    proof {
        lemma_fadd_fneg(dlog(masked.c2), dlog(acc));
    }
    Ok(card)
}

/// Shuffle and remask a deck: apply the permutation, remask every card
/// with its scalar, and prove the shuffle.  Fails exactly when the deck,
/// the permutation or the scalar vector does not match the m-by-n layout.
pub fn shuffle_and_remask(
    rng: &mut Sampler,
    pp: &CardParameters,
    shared_key: &GroupElem,
    deck: &Vec<Ciphertext>,
    masking_factors: &Vec<ark_bn254::Fr>,
    permutation: &Permutation,
) -> (res: Result<(Vec<Ciphertext>, shuffle::Proof), CryptoError>)
    requires
        permutation.valid(),
        pp.commit_key.spec_len() == pp.n,
        pp.m >= 2,
        pp.n >= 2,
        3 * (pp.m as int) + 3 <= usize::MAX,
    ensures
        (deck@.len() == pp.deck_size() && masking_factors@.len() == pp.deck_size()
            && permutation.spec_size() == pp.deck_size()) <==> res is Ok,
        res matches Ok(pair) ==> pair.0@.len() == deck@.len() && (forall|i: int|
            0 <= i < deck@.len() ==> (#[trigger] pair.0@[i])@ == cadd(
                deck@[permutation.at(i)]@,
                enc(
                    dlog(pp.enc_parameters.generator),
                    dlog(*shared_key),
                    0,
                    fr_val(masking_factors@[i]),
                ),
            )),
        res is Ok ==> final(rng)@ == crate::sampling::fr_stream_state(
            old(rng)@,
            (5 * pp.n + 11 * pp.m + 6) as nat,
        ),
        res matches Err(e) ==> e == CryptoError::InvalidShuffleStatement,
{
    let total = deck.len();
    proof {
        vstd::arithmetic::mul::lemma_mul_strict_inequality(0, pp.m as int, pp.n as int);
        vstd::arithmetic::mul::lemma_mul_inequality(pp.m as int, 3 * (pp.m as int), pp.n as int);
    }
    if permutation.size() != total || masking_factors.len() != total {
        return Err(CryptoError::InvalidShuffleStatement);
    }
    let zero_plain = g1_zero();
    let mut new_deck: Vec<Ciphertext> = Vec::new();
    let mut i: usize = 0;
    while i < total
        invariant
            i <= total,
            total == deck@.len(),
            permutation.valid(),
            permutation.spec_size() == total,
            masking_factors@.len() == total,
            dlog(zero_plain) == 0,
            new_deck@.len() == i,
            forall|j: int|
                0 <= j < i ==> (#[trigger] new_deck@[j])@ == cadd(
                    deck@[permutation.at(j)]@,
                    enc(
                        dlog(pp.enc_parameters.generator),
                        dlog(*shared_key),
                        0,
                        fr_val(masking_factors@[j]),
                    ),
                ),
        decreases total - i,
    {
        let source = permutation.mapping[i];
        let masking = elgamal::encrypt(
            &pp.enc_parameters,
            shared_key,
            &zero_plain,
            &masking_factors[i],
        );
        new_deck.push(deck[source].add_cipher(&masking));
        i = i + 1;
    }

    let statement = shuffle::Statement::new(
        dup_ciphers(deck),
        dup_ciphers(&new_deck),
        pp.m,
        pp.n,
    );
    let witness = shuffle::Witness::new(
        Permutation { mapping: dup_indices(&permutation.mapping) },
        crate::matrix::vec_dup(masking_factors),
    );
    let sh_params = shuffle::Parameters::new(
        elgamal::Parameters { generator: g1_copy(&pp.enc_parameters.generator) },
        g1_copy(shared_key),
        CommitKey {
            h: g1_copy(&pp.commit_key.h),
            gs: crate::arguments::hadamard::dup_points(&pp.commit_key.gs),
        },
        g1_copy(&pp.generator),
    );
    let seed = shuffle_seed();
    let mut t = Transcript::new(&seed);
    match ShuffleArgument::prove(rng, &sh_params, &statement, &witness, &mut t) {
        Ok(proof) => Ok((new_deck, proof)),
        Err(e) => Err(e),
    }
}

/// Verify a shuffle: deterministic from the fixed transcript seed, the
/// decks and the proof.
pub fn verify_shuffle(
    pp: &CardParameters,
    shared_key: &GroupElem,
    deck: &Vec<Ciphertext>,
    shuffled_deck: &Vec<Ciphertext>,
    proof: &shuffle::Proof,
) -> (r: Result<(), CryptoError>)
    ensures
        r is Ok <==> (pp.n == pp.commit_key.spec_len() && sh_ok(
            dlog(pp.enc_parameters.generator),
            dlog(*shared_key),
            dlog(pp.commit_key.h),
            pp.commit_key.gs_vals(),
            dlog(pp.generator),
            crate::matrix::cvs(deck@),
            crate::matrix::cvs(shuffled_deck@),
            pp.m as nat,
            pp.n as nat,
            *proof,
            seq![spec_shuffle_seed()],
        )),
        !({
            let st = shuffle::Statement {
                input_ciphers: *deck,
                shuffled_ciphers: *shuffled_deck,
                m: pp.m,
                n: pp.n,
            };
            st.well_formed()
        } && pp.n == pp.commit_key.spec_len()) ==> (r matches Err(e) && e
            == CryptoError::InvalidShuffleStatement),
        ({
            let st = shuffle::Statement {
                input_ciphers: *deck,
                shuffled_ciphers: *shuffled_deck,
                m: pp.m,
                n: pp.n,
            };
            st.well_formed()
        } && pp.n == pp.commit_key.spec_len() && r is Err) ==> is_stage_err(r, "Shuffle"@),
{
    let statement = shuffle::Statement::new(
        dup_ciphers(deck),
        dup_ciphers(shuffled_deck),
        pp.m,
        pp.n,
    );
    let sh_params = shuffle::Parameters::new(
        elgamal::Parameters { generator: g1_copy(&pp.enc_parameters.generator) },
        g1_copy(shared_key),
        CommitKey {
            h: g1_copy(&pp.commit_key.h),
            gs: crate::arguments::hadamard::dup_points(&pp.commit_key.gs),
        },
        g1_copy(&pp.generator),
    );
    let seed = shuffle_seed();
    let mut t = Transcript::new(&seed);
    ShuffleArgument::verify(&sh_params, &statement, proof, &mut t)
}

/// A copy of a ciphertext vector.
pub fn dup_ciphers(v: &Vec<Ciphertext>) -> (r: Vec<Ciphertext>)
    ensures
        r@ == v@,
{
    let mut out: Vec<Ciphertext> = Vec::new();
    let mut i: usize = 0;
    while i < v.len()
        invariant
            i <= v@.len(),
            out@.len() == i,
            forall|j: int| 0 <= j < i ==> #[trigger] out@[j] == v@[j],
        decreases v@.len() - i,
    {
        out.push(v[i].dup());
        i = i + 1;
    }
    proof {
        assert(out@ =~= v@);
    }
    out
}

/// A copy of an index vector.
fn dup_indices(v: &Vec<usize>) -> (r: Vec<usize>)
    ensures
        r@ == v@,
{
    let mut out: Vec<usize> = Vec::new();
    let mut i: usize = 0;
    while i < v.len()
        invariant
            i <= v@.len(),
            out@.len() == i,
            forall|j: int| 0 <= j < i ==> #[trigger] out@[j] == v@[j],
        decreases v@.len() - i,
    {
        out.push(v[i]);
        i = i + 1;
    }
    proof {
        assert(out@ =~= v@);
    }
    out
}

/// Shuffling with remasking preserves the deck's plaintexts up to the
/// permutation: a remasked card decrypts, under the joint secret key, to
/// the plaintext of the card it replaced.
pub proof fn lemma_shuffle_remask_decrypts(gen: int, sk: int, card: (int, int), rho: int)
    ensures
        dec(sk, cadd(card, enc(gen, fmul(sk, gen), 0, rho))) == dec(sk, card),
{
    elgamal::lemma_remask_preserves_plaintext(gen, sk, card, rho);
}

/// The sum of per-player multiples of a common base equals the multiple by
/// the summed scalars.
pub proof fn lemma_scaled_sum_factors(sks: Seq<int>, base: int, k: nat)
    ensures
        scaled_sum(sks, base, k) == fmul(fsum(sks, k), base),
    decreases k,
{
    crate::zq::lemma_q_pos();
    if k == 0 {
        crate::zq::lemma_fmul_zero(base);
    } else {
        let km1 = (k - 1) as nat;
        lemma_scaled_sum_factors(sks, base, km1);
        let s = fsum(sks, km1);
        let x = sks[k - 1];
        assert(fmul(fadd(s, x), base) == fadd(fmul(s, base), fmul(x, base))) by {
            lemma_fmul_mod_noop(s + x, base);
            vstd::arithmetic::mul::lemma_mul_is_distributive_add_other_way(base, s, x);
            vstd::arithmetic::div_mod::lemma_add_mod_noop(s * base, x * base, q());
        }
    }
}

/// The sum of the first `k` values `sks[i] * base`.
pub open spec fn scaled_sum(sks: Seq<int>, base: int, k: nat) -> int
    decreases k,
{
    if k == 0 {
        0
    } else {
        fadd(scaled_sum(sks, base, (k - 1) as nat), fmul(sks[k - 1], base))
    }
}

/// Unmasking recovers the card: when every holder of a share of the joint
/// key contributes the token `sk_i * c1` for a card masked under the
/// joint key (the sum of the `sk_i * gen`), subtracting the summed tokens
/// from `c2` yields the original plaintext.
pub proof fn lemma_unmask_recovers(gen: int, sks: Seq<int>, msg: int, r: int)
    requires
        in_f(msg),
    ensures
        ({
            let joint = scaled_sum(sks, gen, sks.len());
            let cipher = enc(gen, joint, msg, r);
            fsub(cipher.1, scaled_sum(sks, cipher.0, sks.len())) == msg
        }),
{
    let skt = fsum(sks, sks.len());
    let joint = scaled_sum(sks, gen, sks.len());
    let cipher = enc(gen, joint, msg, r);
    lemma_scaled_sum_factors(sks, gen, sks.len());
    lemma_scaled_sum_factors(sks, cipher.0, sks.len());
    assert(joint == fmul(skt, gen));
    assert(scaled_sum(sks, cipher.0, sks.len()) == fmul(skt, cipher.0));
    elgamal::lemma_encrypt_then_decrypt(gen, skt, msg, r);
}

/// An honestly produced masking proof verifies: the offset of the
/// ciphertext's second component from the card equals the blinding
/// multiple of the joint key, so the discrete-logarithm-equality check
/// accepts.
pub proof fn lemma_mask_proof_verifies(gen: int, jpk: int, card: int, r: int, k: int)
    requires
        in_f(card),
    ensures
        ({
            let cipher = enc(gen, jpk, card, r);
            let y = fsub(cipher.1, card);
            cp_accepts(
                gen,
                jpk,
                cipher.0,
                y,
                fmul(k, gen),
                fmul(k, jpk),
                fadd(k, fmul(cp_challenge(gen, jpk, cipher.0, y, fmul(k, gen), fmul(k, jpk)), r)),
            )
        }),
{
    let cipher = enc(gen, jpk, card, r);
    let t = fmul(r, jpk);
    assert(fsub(cipher.1, card) == t) by {
        crate::zq::lemma_fmul_in_f(r, jpk);
        crate::zq::lemma_fadd_comm(card, t);
        crate::zq::lemma_fadd_fsub_cancel(t, card);
    }
    chaum_pedersen::lemma_cp_completeness(gen, jpk, r, k);
}

/// An honestly produced remasking proof verifies: the component-wise
/// difference of the remasked and the original card is exactly the fresh
/// encryption of the identity, so the discrete-logarithm-equality check
/// accepts.
pub proof fn lemma_remask_proof_verifies(gen: int, jpk: int, card: (int, int), alpha: int, k: int)
    requires
        in_f(card.0),
        in_f(card.1),
    ensures
        ({
            let remasked = cadd(card, enc(gen, jpk, 0, alpha));
            let y1 = fsub(remasked.0, card.0);
            let y2 = fsub(remasked.1, card.1);
            cp_accepts(
                gen,
                jpk,
                y1,
                y2,
                fmul(k, gen),
                fmul(k, jpk),
                cp_response(gen, jpk, y1, y2, alpha, k),
            )
        }),
{
    let masking = enc(gen, jpk, 0, alpha);
    let remasked = cadd(card, masking);
    let t1 = fmul(alpha, gen);
    let t2 = fmul(alpha, jpk);
    assert(masking.1 == t2) by {
        crate::zq::lemma_fmul_in_f(alpha, jpk);
        crate::zq::lemma_fadd_zero(t2);
    }
    assert(fsub(remasked.0, card.0) == t1) by {
        crate::zq::lemma_fmul_in_f(alpha, gen);
        crate::zq::lemma_fadd_comm(card.0, t1);
        crate::zq::lemma_fadd_fsub_cancel(t1, card.0);
    }
    assert(fsub(remasked.1, card.1) == t2) by {
        crate::zq::lemma_fmul_in_f(alpha, jpk);
        crate::zq::lemma_fadd_comm(card.1, t2);
        crate::zq::lemma_fadd_fsub_cancel(t2, card.1);
    }
    chaum_pedersen::lemma_cp_completeness(gen, jpk, alpha, k);
}

/// The honest response of a discrete-logarithm-equality proof.
pub open spec fn cp_response(u: int, v: int, x: int, y: int, w: int, k: int) -> int {
    fadd(k, fmul(crate::chaum_pedersen::cp_challenge(u, v, x, y, fmul(k, u), fmul(k, v)), w))
}

/// A suite of a classic playing card.
#[derive(PartialEq, Clone, Copy, Eq, Debug)]
pub enum Suite {
    Club,
    Diamond,
    Heart,
    Spade,
}

/// A face value of a classic playing card.
#[derive(PartialEq, PartialOrd, Clone, Copy, Eq, Debug)]
pub enum Value {
    Two,
    Three,
    Four,
    Five,
    Six,
    Seven,
    Eight,
    Nine,
    Ten,
    Jack,
    Queen,
    King,
    Ace,
}

/// A classic playing card: a face value and a suite, the label a plaintext
/// group element stands for.
#[derive(PartialEq, Clone, Eq, Copy, Debug)]
pub struct ClassicPlayingCard {
    pub value: Value,
    pub suite: Suite,
}

impl ClassicPlayingCard {
    pub fn new(value: Value, suite: Suite) -> (r: ClassicPlayingCard)
        ensures
            r.value == value,
            r.suite == suite,
    {
        ClassicPlayingCard { value, suite }
    }
}

/// One seat at the table: a name, the player's public key with its
/// ownership proof, and the cards dealt so far.
pub struct Player {
    pub name: String,
    pub pk: GroupElem,
    pub proof_key: schnorr::Proof,
    pub cards: Vec<Ciphertext>,
    pub opened_cards: Vec<Option<ClassicPlayingCard>>,
}

impl Player {
    pub fn new(pk: GroupElem, proof_key: schnorr::Proof, name: String) -> (r: Player)
        ensures
            r.pk == pk,
            r.proof_key == proof_key,
            r.name == name,
            r.cards@.len() == 0,
            r.opened_cards@.len() == 0,
    {
        Player { name, pk, proof_key, cards: Vec::new(), opened_cards: Vec::new() }
    }

    /// Take a dealt masked card into the hand, still face down.
    pub fn receive_card(&mut self, card: Ciphertext)
        ensures
            final(self).cards@ == old(self).cards@.push(card),
            final(self).opened_cards@ == old(self).opened_cards@.push(None::<ClassicPlayingCard>),
            final(self).pk == old(self).pk,
            final(self).name == old(self).name,
    {
        self.cards.push(card);
        self.opened_cards.push(None);
    }
}

} // verus!
