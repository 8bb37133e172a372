//! End-to-end card-protocol tests: a full two-player game, tampering,
//! dimension mismatches, and the algebraic laws on concrete values.

use mental_poker::cards::{self, ClassicPlayingCard, Player, Suite, Value};
use mental_poker::codec;
use mental_poker::chaum_pedersen;
use mental_poker::elgamal::{self, Ciphertext};
use mental_poker::error::{CardProtocolError, CryptoError};
use mental_poker::group::{
    fr_add, fr_eq, fr_from_bytes, fr_from_u64, fr_mul, fr_one, fr_rand, fr_to_bytes, g1_add,
    g1_copy, g1_eq, g1_from_bytes, g1_rand, g1_to_bytes, GroupElem, Sampler,
};
use mental_poker::permutation::Permutation;
use mental_poker::sampling::sample_vector;
use mental_poker::schnorr;

fn all_values() -> Vec<Value> {
    vec![
        Value::Two,
        Value::Three,
        Value::Four,
        Value::Five,
        Value::Six,
        Value::Seven,
        Value::Eight,
        Value::Nine,
        Value::Ten,
        Value::Jack,
        Value::Queen,
        Value::King,
        Value::Ace,
    ]
}

fn all_suites() -> Vec<Suite> {
    vec![Suite::Club, Suite::Diamond, Suite::Heart, Suite::Spade]
}

fn encode_cards(rng: &mut Sampler, num_of_cards: usize) -> Vec<(GroupElem, ClassicPlayingCard)> {
    let mut map = Vec::new();
    let mut i = 0;
    for value in all_values() {
        for suite in all_suites() {
            assert!(i < num_of_cards);
            let plaintext = g1_rand(rng);
            map.push((plaintext, ClassicPlayingCard::new(value, suite)));
            i += 1;
        }
    }
    assert_eq!(i, num_of_cards);
    map
}

fn lookup(
    map: &Vec<(GroupElem, ClassicPlayingCard)>,
    card: &GroupElem,
) -> Option<ClassicPlayingCard> {
    for (plain, classic) in map.iter() {
        if g1_eq(plain, card) {
            return Some(*classic);
        }
    }
    None
}

struct Seat {
    sk: ark_bn254::Fr,
    player: Player,
}

#[test]
fn run_game() {
    let m: usize = 2;
    let n: usize = 26;
    let num_of_cards = m * n;
    let rng = &mut Sampler::from_seed(2024);

    let parameters = cards::setup(rng, m, n).unwrap();
    let card_mapping = encode_cards(rng, num_of_cards);

    let mut seats = Vec::new();
    for name in [&b"Alice"[..], &b"Bob"[..]] {
        let (pk, sk) = cards::player_keygen(rng, &parameters);
        let label = name.to_vec();
        let proof_key = cards::prove_key_ownership(rng, &parameters, &pk, &sk, &label);
        let player = Player::new(
            g1_copy(&pk),
            proof_key,
            String::from_utf8(label).unwrap(),
        );
        seats.push(Seat { sk, player });
    }

    let mut key_proof_info = Vec::new();
    for seat in seats.iter() {
        let rerun = cards::prove_key_ownership(
            rng,
            &parameters,
            &seat.player.pk,
            &seat.sk,
            &seat.player.name.clone().into_bytes(),
        );
        key_proof_info.push((
            g1_copy(&seat.player.pk),
            rerun,
            seat.player.name.clone().into_bytes(),
        ));
    }

    let joint_pk = cards::compute_aggregate_key(&parameters, &key_proof_info).unwrap();

    // Mask every card with the scalar one; everyone can verify the masks.
    let mut deck: Vec<Ciphertext> = Vec::new();
    for (card, _) in card_mapping.iter() {
        let (masked, mask_proof) = cards::mask(rng, &parameters, &joint_pk, card, &fr_one());
        cards::verify_mask(&parameters, &joint_pk, card, &masked, &mask_proof).unwrap();
        deck.push(masked);
    }

    // Alice shuffles first.
    let permutation = Permutation::sample(rng, m * n);
    let masking_factors = sample_vector(rng, m * n);
    let (a_shuffled_deck, a_shuffle_proof) = cards::shuffle_and_remask(
        rng,
        &parameters,
        &joint_pk,
        &deck,
        &masking_factors,
        &permutation,
    )
    .unwrap();
    cards::verify_shuffle(&parameters, &joint_pk, &deck, &a_shuffled_deck, &a_shuffle_proof)
        .unwrap();

    // Bob shuffles on Alice's output.
    let permutation = Permutation::sample(rng, m * n);
    let masking_factors = sample_vector(rng, m * n);
    let (b_shuffled_deck, b_shuffle_proof) = cards::shuffle_and_remask(
        rng,
        &parameters,
        &joint_pk,
        &a_shuffled_deck,
        &masking_factors,
        &permutation,
    )
    .unwrap();
    cards::verify_shuffle(
        &parameters,
        &joint_pk,
        &a_shuffled_deck,
        &b_shuffled_deck,
        &b_shuffle_proof,
    )
    .unwrap();

    // Deal the top two cards and let each player open one with the other's
    // reveal token plus their own.
    let deck = b_shuffled_deck;
    for (holder, card_index) in [(0usize, 0usize), (1usize, 1usize)] {
        let masked = &deck[card_index];
        let mut tokens = Vec::new();
        for (i, seat) in seats.iter().enumerate() {
            if i != holder {
                let (token, reveal_proof) =
                    cards::compute_reveal_token(rng, &parameters, &seat.sk, &seat.player.pk, masked);
                tokens.push((token, reveal_proof, g1_copy(&seat.player.pk)));
            }
        }
        let own_seat = &seats[holder];
        let (own_token, own_proof) = cards::compute_reveal_token(
            rng,
            &parameters,
            &own_seat.sk,
            &own_seat.player.pk,
            masked,
        );
        tokens.push((own_token, own_proof, g1_copy(&own_seat.player.pk)));
        let opened = cards::unmask(&parameters, &tokens, masked).unwrap();
        let classic = lookup(&card_mapping, &opened);
        assert!(classic.is_some(), "the unmasked card is one of the deck");
    }
}

#[test]
fn tampered_shuffle_proof_is_rejected() {
    let m: usize = 2;
    let n: usize = 2;
    let rng = &mut Sampler::from_seed(99);
    let parameters = cards::setup(rng, m, n).unwrap();
    let (pk_a, sk_a) = cards::player_keygen(rng, &parameters);
    let proof_a = cards::prove_key_ownership(rng, &parameters, &pk_a, &sk_a, &b"A".to_vec());
    let joint_pk =
        cards::compute_aggregate_key(&parameters, &vec![(pk_a, proof_a, b"A".to_vec())]).unwrap();

    let mut deck = Vec::new();
    for _ in 0..m * n {
        let card = g1_rand(rng);
        let (masked, _) = cards::mask(rng, &parameters, &joint_pk, &card, &fr_one());
        deck.push(masked);
    }
    let permutation = Permutation::sample(rng, m * n);
    let masking_factors = sample_vector(rng, m * n);
    let (shuffled, mut proof) = cards::shuffle_and_remask(
        rng,
        &parameters,
        &joint_pk,
        &deck,
        &masking_factors,
        &permutation,
    )
    .unwrap();
    cards::verify_shuffle(&parameters, &joint_pk, &deck, &shuffled, &proof).unwrap();

    // Serialize the proof, corrupt one byte in the low-order end of the
    // last opened scalar, and decode it back: the verifier must reject.
    let mut bytes = codec::shuffle_proof_to_bytes(&proof);
    let last = bytes.len() - 32;
    bytes[last] ^= 1;
    let corrupted = codec::shuffle_proof_from_bytes(&bytes, m, n).unwrap();
    assert_eq!(
        cards::verify_shuffle(&parameters, &joint_pk, &deck, &shuffled, &corrupted),
        Err(CryptoError::ProofVerificationError(String::from("Shuffle")))
    );

    // The untouched encoding decodes back to a proof that still verifies.
    let round_trip =
        codec::shuffle_proof_from_bytes(&codec::shuffle_proof_to_bytes(&proof), m, n).unwrap();
    assert!(cards::verify_shuffle(&parameters, &joint_pk, &deck, &shuffled, &round_trip).is_ok());
    let _ = proof;
}

#[test]
fn shuffle_provers_with_identical_randomness_agree() {
    let m: usize = 2;
    let n: usize = 2;
    let mut setup_rng = Sampler::from_seed(33);
    let parameters = cards::setup(&mut setup_rng, m, n).unwrap();
    let (pk, sk) = cards::player_keygen(&mut setup_rng, &parameters);
    let proof_key =
        cards::prove_key_ownership(&mut setup_rng, &parameters, &pk, &sk, &b"solo".to_vec());
    let joint_pk = cards::compute_aggregate_key(
        &parameters,
        &vec![(pk, proof_key, b"solo".to_vec())],
    )
    .unwrap();
    let mut deck = Vec::new();
    for _ in 0..m * n {
        let card = g1_rand(&mut setup_rng);
        let (masked, _) = cards::mask(&mut setup_rng, &parameters, &joint_pk, &card, &fr_one());
        deck.push(masked);
    }
    let permutation = Permutation::sample(&mut setup_rng, m * n);
    let masking_factors = sample_vector(&mut setup_rng, m * n);

    let mut rng1 = Sampler::from_seed(34);
    let mut rng2 = Sampler::from_seed(34);
    let (deck1, proof1) = cards::shuffle_and_remask(
        &mut rng1,
        &parameters,
        &joint_pk,
        &deck,
        &masking_factors,
        &permutation,
    )
    .unwrap();
    let (deck2, proof2) = cards::shuffle_and_remask(
        &mut rng2,
        &parameters,
        &joint_pk,
        &deck,
        &masking_factors,
        &permutation,
    )
    .unwrap();
    for (c1, c2) in deck1.iter().zip(deck2.iter()) {
        assert!(c1.eq_cipher(c2));
    }
    assert_eq!(
        codec::shuffle_proof_to_bytes(&proof1),
        codec::shuffle_proof_to_bytes(&proof2)
    );
}

#[test]
fn wrong_deck_size_is_rejected() {
    let m: usize = 2;
    let n: usize = 26;
    let rng = &mut Sampler::from_seed(5);
    let parameters = cards::setup(rng, m, n).unwrap();
    let (pk_a, sk_a) = cards::player_keygen(rng, &parameters);
    let proof_a = cards::prove_key_ownership(rng, &parameters, &pk_a, &sk_a, &b"A".to_vec());
    let joint_pk =
        cards::compute_aggregate_key(&parameters, &vec![(pk_a, proof_a, b"A".to_vec())]).unwrap();

    // A deck of 51 cards cannot fill the 2-by-26 matrix.
    let mut deck = Vec::new();
    for _ in 0..51 {
        let card = g1_rand(rng);
        let (masked, _) = cards::mask(rng, &parameters, &joint_pk, &card, &fr_one());
        deck.push(masked);
    }
    let permutation = Permutation::sample(rng, 51);
    let masking_factors = sample_vector(rng, 51);
    let res = cards::shuffle_and_remask(
        rng,
        &parameters,
        &joint_pk,
        &deck,
        &masking_factors,
        &permutation,
    );
    assert_eq!(res.err().unwrap(), CryptoError::InvalidShuffleStatement);
}

#[test]
fn encrypt_then_decrypt_returns_plaintext() {
    let rng = &mut Sampler::from_seed(11);
    let pp = elgamal::setup(rng);
    let (pk, sk) = elgamal::keygen(&pp, rng);
    for _ in 0..4 {
        let msg = g1_rand(rng);
        let r = fr_rand(rng);
        let cipher = elgamal::encrypt(&pp, &pk, &msg, &r);
        let recovered = elgamal::decrypt(&pp, &sk, &cipher);
        assert!(g1_eq(&recovered, &msg));
    }
}

#[test]
fn decryption_is_homomorphic() {
    let rng = &mut Sampler::from_seed(12);
    let pp = elgamal::setup(rng);
    let (pk, sk) = elgamal::keygen(&pp, rng);
    let m1 = g1_rand(rng);
    let m2 = g1_rand(rng);
    let c1 = elgamal::encrypt(&pp, &pk, &m1, &fr_rand(rng));
    let c2 = elgamal::encrypt(&pp, &pk, &m2, &fr_rand(rng));

    let sum = c1.add_cipher(&c2);
    let dec_sum = elgamal::decrypt(&pp, &sk, &sum);
    assert!(g1_eq(&dec_sum, &g1_add(&m1, &m2)));

    let s = fr_from_u64(77);
    let scaled = c1.scale(&s);
    let dec_scaled = elgamal::decrypt(&pp, &sk, &scaled);
    assert!(g1_eq(&dec_scaled, &mental_poker::group::g1_mul(&s, &m1)));
}

#[test]
fn aggregate_key_is_sum_and_rejects_bad_proof() {
    let rng = &mut Sampler::from_seed(13);
    let parameters = cards::setup(rng, 2, 2).unwrap();
    let (pk_a, sk_a) = cards::player_keygen(rng, &parameters);
    let (pk_b, sk_b) = cards::player_keygen(rng, &parameters);
    let proof_a = cards::prove_key_ownership(rng, &parameters, &pk_a, &sk_a, &b"A".to_vec());
    let proof_b = cards::prove_key_ownership(rng, &parameters, &pk_b, &sk_b, &b"B".to_vec());

    let expected = g1_add(&pk_a, &pk_b);
    let infos = vec![
        (g1_copy(&pk_a), proof_a, b"A".to_vec()),
        (g1_copy(&pk_b), proof_b, b"B".to_vec()),
    ];
    let joint = cards::compute_aggregate_key(&parameters, &infos).unwrap();
    assert!(g1_eq(&joint, &expected));

    // A proof re-labelled to another name no longer verifies, and the
    // aggregation rejects it.
    let relabelled = cards::prove_key_ownership(rng, &parameters, &pk_a, &sk_a, &b"A"
        .to_vec());
    assert!(cards::verify_key_ownership(&parameters, &pk_a, &b"C".to_vec(), &relabelled).is_err());
    let bad_infos = vec![(g1_copy(&pk_a), relabelled, b"C".to_vec())];
    assert!(cards::compute_aggregate_key(&parameters, &bad_infos).is_err());
}

#[test]
fn remask_preserves_plaintext_and_verifies() {
    let rng = &mut Sampler::from_seed(14);
    let parameters = cards::setup(rng, 2, 2).unwrap();
    let (pk, sk) = cards::player_keygen(rng, &parameters);
    let proof = cards::prove_key_ownership(rng, &parameters, &pk, &sk, &b"P"
        .to_vec());
    let joint =
        cards::compute_aggregate_key(&parameters, &vec![(g1_copy(&pk), proof, b"P".to_vec())])
            .unwrap();

    let card = g1_rand(rng);
    let mask_scalar = fr_rand(rng);
    let (masked, mask_proof) = cards::mask(rng, &parameters, &joint, &card, &mask_scalar);
    cards::verify_mask(&parameters, &joint, &card, &masked, &mask_proof).unwrap();

    let remask_scalar = fr_rand(rng);
    let (remasked, remask_proof) =
        cards::remask(rng, &parameters, &joint, &masked, &remask_scalar);
    cards::verify_remask(&parameters, &joint, &masked, &remasked, &remask_proof).unwrap();

    let opened = elgamal::decrypt(&parameters.enc_parameters, &sk, &remasked);
    assert!(g1_eq(&opened, &card));
}

#[test]
fn unmask_recovers_masked_card() {
    let rng = &mut Sampler::from_seed(15);
    let parameters = cards::setup(rng, 2, 2).unwrap();
    let (pk_a, sk_a) = cards::player_keygen(rng, &parameters);
    let (pk_b, sk_b) = cards::player_keygen(rng, &parameters);
    let joint = g1_add(&pk_a, &pk_b);

    let card = g1_rand(rng);
    let mask_scalar = fr_rand(rng);
    let (masked, _) = cards::mask(rng, &parameters, &joint, &card, &mask_scalar);

    let (token_a, proof_a) =
        cards::compute_reveal_token(rng, &parameters, &sk_a, &pk_a, &masked);
    let (token_b, proof_b) =
        cards::compute_reveal_token(rng, &parameters, &sk_b, &pk_b, &masked);
    let tokens = vec![
        (token_a, proof_a, g1_copy(&pk_a)),
        (token_b, proof_b, g1_copy(&pk_b)),
    ];
    let recovered = cards::unmask(&parameters, &tokens, &masked).unwrap();
    assert!(g1_eq(&recovered, &card));
}

#[test]
fn provers_with_identical_randomness_agree() {
    // Two independent provers with identical inputs and identical
    // generator state produce identical proofs.
    let mut rng1 = Sampler::from_seed(16);
    let mut rng2 = Sampler::from_seed(16);
    let mut setup_rng = Sampler::from_seed(17);
    let pp = elgamal::setup(&mut setup_rng);
    let (pk, sk) = elgamal::keygen(&pp, &mut setup_rng);
    let label = b"twin".to_vec();
    let p1 = schnorr::prove(&mut rng1, &pp.generator, &pk, &sk, &label);
    let p2 = schnorr::prove(&mut rng2, &pp.generator, &pk, &sk, &label);
    assert!(g1_eq(&p1.announcement, &p2.announcement));
    assert!(fr_eq(&p1.response, &p2.response));

    let u = g1_rand(&mut setup_rng);
    let v = g1_rand(&mut setup_rng);
    let w = fr_rand(&mut setup_rng);
    let x = mental_poker::group::g1_mul(&w, &u);
    let y = mental_poker::group::g1_mul(&w, &v);
    let mut rng3 = Sampler::from_seed(18);
    let mut rng4 = Sampler::from_seed(18);
    let q1 = chaum_pedersen::prove(&mut rng3, &u, &v, &x, &y, &w);
    let q2 = chaum_pedersen::prove(&mut rng4, &u, &v, &x, &y, &w);
    assert!(g1_eq(&q1.a1, &q2.a1));
    assert!(g1_eq(&q1.a2, &q2.a2));
    assert!(fr_eq(&q1.response, &q2.response));
}

#[test]
fn verification_is_deterministic() {
    let rng = &mut Sampler::from_seed(19);
    let pp = elgamal::setup(rng);
    let (pk, sk) = elgamal::keygen(&pp, rng);
    let label = b"again".to_vec();
    let proof = schnorr::prove(rng, &pp.generator, &pk, &sk, &label);
    let first = schnorr::verify(&pp.generator, &pk, &label, &proof);
    let second = schnorr::verify(&pp.generator, &pk, &label, &proof);
    assert_eq!(first.is_ok(), second.is_ok());
    assert!(first.is_ok());
}

#[test]
fn commit_rejects_wrong_vector_length() {
    let rng = &mut Sampler::from_seed(20);
    let key = mental_poker::pedersen::setup(rng, 3);
    let too_short = vec![fr_one(), fr_one()];
    assert_eq!(
        mental_poker::pedersen::commit(&key, &too_short, &fr_one()).err().unwrap(),
        CryptoError::InvalidVectorLength
    );
}

#[test]
fn setup_rejects_too_small_dimensions() {
    let rng = &mut Sampler::from_seed(21);
    assert_eq!(
        cards::setup(rng, 1, 26).err().unwrap(),
        CardProtocolError::ProofVerificationError(CryptoError::CommitKeyTooShort)
    );
    assert_eq!(
        cards::setup(rng, 2, 0).err().unwrap(),
        CardProtocolError::ProofVerificationError(CryptoError::CommitKeyTooShort)
    );
}

#[test]
fn malformed_encodings_are_rejected() {
    let rng = &mut Sampler::from_seed(23);
    let p = g1_rand(rng);
    let mut bytes = g1_to_bytes(&p);
    bytes.pop();
    assert_eq!(
        codec::ciphertext_from_bytes(&bytes).err().unwrap(),
        CryptoError::SerializationError
    );
    let garbage = vec![0xffu8; 64];
    assert_eq!(
        codec::ciphertext_from_bytes(&garbage).err().unwrap(),
        CryptoError::SerializationError
    );
    assert_eq!(
        codec::key_ownership_proof_from_bytes(&vec![1u8, 2u8, 3u8]).err().unwrap(),
        CryptoError::SerializationError
    );
}

#[test]
fn serialization_round_trips() {
    let rng = &mut Sampler::from_seed(22);
    let s = fr_rand(rng);
    let bytes = fr_to_bytes(&s);
    assert_eq!(bytes.len(), 32);
    let back = fr_from_bytes(&bytes).unwrap();
    assert!(fr_eq(&s, &back));

    let p = g1_rand(rng);
    let bytes = g1_to_bytes(&p);
    assert_eq!(bytes.len(), 32);
    let back = g1_from_bytes(&bytes).unwrap();
    assert!(g1_eq(&p, &back));

    // The scalar arithmetic wrappers really compute: 2 + 3 * 4 = 14.
    let lhs = fr_add(&fr_from_u64(2), &fr_mul(&fr_from_u64(3), &fr_from_u64(4)));
    assert!(fr_eq(&lhs, &fr_from_u64(14)));
}
