//! Tests of the zero-knowledge arguments on their own statements.

use mental_poker::arguments::multi_exponentiation as multi_exp;
use mental_poker::arguments::product;
use mental_poker::arguments::single_value_product as svp;
use mental_poker::elgamal;
use mental_poker::error::CryptoError;
use mental_poker::group::{fr_from_u64, fr_rand, g1_rand, g1_zero, Sampler};
use mental_poker::matrix::{dot_product, reshape_ciphertexts, reshape_scalars};
use mental_poker::pedersen;
use mental_poker::sampling::{sample_ciphertexts, sample_vector};
use mental_poker::transcript::Transcript;

fn seed_transcript() -> Transcript {
    Transcript::new(&b"Initialised with some input".to_vec())
}

#[test]
fn test_multi_exp() {
    let rng = &mut Sampler::from_seed(42);
    let m: usize = 4;
    let n: usize = 13;
    let number_of_ciphers = m * n;

    let encrypt_parameters = elgamal::setup(rng);
    let (pk, _sk) = elgamal::keygen(&encrypt_parameters, rng);
    let commit_key = pedersen::setup(rng, n);
    let generator = g1_rand(rng);

    let ciphers = sample_ciphertexts(rng, number_of_ciphers);
    let exponents = sample_vector(rng, number_of_ciphers);

    let parameters =
        multi_exp::Parameters::new(encrypt_parameters, pk, commit_key, generator);

    // Construct the witness.
    let a_chunks = reshape_scalars(&exponents, m, n).unwrap();
    let r = sample_vector(rng, m);
    let rho = fr_rand(rng);

    // Construct the statement.
    let c_chunks = reshape_ciphertexts(&ciphers, m, n).unwrap();
    let dot_prod = dot_product(&exponents, &ciphers).unwrap();
    let zero = g1_zero();
    let masking_term = elgamal::encrypt(
        &parameters.encrypt_parameters,
        &parameters.public_key,
        &zero,
        &rho,
    );
    let grand_product = dot_prod.add_cipher(&masking_term);

    let mut c_a = Vec::new();
    for (a_chunk, random) in a_chunks.iter().zip(r.iter()) {
        c_a.push(pedersen::commit(&parameters.commit_key, a_chunk, random).unwrap());
    }

    let statement = multi_exp::Statement::new(c_chunks, grand_product, c_a);
    let witness = multi_exp::Witness::new(a_chunks, r, rho);

    let mut fs_rng = seed_transcript();
    let proof =
        multi_exp::MultiExponentiation::prove(rng, &parameters, &statement, &witness, &mut fs_rng)
            .unwrap();

    let mut fs_rng = seed_transcript();
    assert_eq!(
        (),
        multi_exp::MultiExponentiation::verify(&parameters, &statement, &proof, &mut fs_rng)
            .unwrap()
    );

    // A witness with the wrong aggregate re-encryption scalar produces a
    // proof the verifier rejects.
    let wrong_rho = fr_rand(rng);
    let a_chunks_again = reshape_scalars(&exponents, m, n).unwrap();
    let r_again = mental_poker::matrix::vec_dup(&witness.matrix_blinders);
    let wrong_witness = multi_exp::Witness::new(a_chunks_again, r_again, wrong_rho);

    let mut fs_rng = seed_transcript();
    let invalid_proof = multi_exp::MultiExponentiation::prove(
        rng,
        &parameters,
        &statement,
        &wrong_witness,
        &mut fs_rng,
    )
    .unwrap();

    let mut fs_rng = seed_transcript();
    assert_eq!(
        multi_exp::MultiExponentiation::verify(&parameters, &statement, &invalid_proof, &mut fs_rng),
        Err(CryptoError::ProofVerificationError(String::from(
            "Multi Exponentiation",
        )))
    );
}

#[test]
fn single_value_product_accepts_true_product() {
    let rng = &mut Sampler::from_seed(7);
    let n: usize = 3;
    let commit_key = pedersen::setup(rng, n);

    let a = vec![fr_from_u64(2), fr_from_u64(3), fr_from_u64(5)];
    let blinder = fr_rand(rng);
    let a_commit = pedersen::commit(&commit_key, &a, &blinder).unwrap();

    let parameters = svp::Parameters::new(n, commit_key);
    let statement = svp::Statement::new(a_commit, fr_from_u64(30));
    let witness = svp::Witness::new(a, blinder);

    let mut fs_rng = seed_transcript();
    let proof =
        svp::SingleValueProductArgument::prove(rng, &parameters, &statement, &witness, &mut fs_rng)
            .unwrap();

    let mut fs_rng = seed_transcript();
    assert!(svp::SingleValueProductArgument::verify(
        &parameters,
        &statement,
        &proof,
        &mut fs_rng
    )
    .is_ok());
}

#[test]
fn single_value_product_round_trip_always_accepts() {
    // The contract of this library function already proves the Ok result;
    // running it checks the same composition at runtime with the S6 values.
    let rng = &mut Sampler::from_seed(10);
    let commit_key = pedersen::setup(rng, 3);
    let a = vec![fr_from_u64(2), fr_from_u64(3), fr_from_u64(5)];
    let blinder = fr_rand(rng);
    let seed = b"Initialised with some input".to_vec();
    assert!(svp::prove_and_verify_product(rng, commit_key, a, blinder, &seed).is_ok());
}

#[test]
fn single_value_product_rejects_wrong_product() {
    let rng = &mut Sampler::from_seed(8);
    let n: usize = 3;
    let commit_key = pedersen::setup(rng, n);

    let a = vec![fr_from_u64(2), fr_from_u64(3), fr_from_u64(5)];
    let blinder = fr_rand(rng);
    let a_commit = pedersen::commit(&commit_key, &a, &blinder).unwrap();

    let parameters = svp::Parameters::new(n, commit_key);
    let statement = svp::Statement::new(a_commit, fr_from_u64(29));
    let witness = svp::Witness::new(a, blinder);

    let mut fs_rng = seed_transcript();
    let proof =
        svp::SingleValueProductArgument::prove(rng, &parameters, &statement, &witness, &mut fs_rng)
            .unwrap();

    let mut fs_rng = seed_transcript();
    assert!(svp::SingleValueProductArgument::verify(
        &parameters,
        &statement,
        &proof,
        &mut fs_rng
    )
    .is_err());
}

#[test]
fn product_argument_round_trip() {
    let rng = &mut Sampler::from_seed(9);
    let m: usize = 2;
    let n: usize = 3;
    let commit_key = pedersen::setup(rng, n);

    // Matrix rows (2, 3, 5) and (1, 4, 6); product of all entries 720.
    let rows = vec![
        vec![fr_from_u64(2), fr_from_u64(3), fr_from_u64(5)],
        vec![fr_from_u64(1), fr_from_u64(4), fr_from_u64(6)],
    ];
    let blinders = sample_vector(rng, m);
    let mut commits = Vec::new();
    for (row, blind) in rows.iter().zip(blinders.iter()) {
        commits.push(pedersen::commit(&commit_key, row, blind).unwrap());
    }

    let parameters = product::Parameters::new(commit_key);
    let statement = product::Statement::new(commits, fr_from_u64(720));
    let witness = product::Witness::new(rows, blinders);

    let mut fs_rng = seed_transcript();
    let proof =
        product::ProductArgument::prove(rng, &parameters, &statement, &witness, &mut fs_rng)
            .unwrap();

    let mut fs_rng = seed_transcript();
    assert!(
        product::ProductArgument::verify(&parameters, &statement, &proof, &mut fs_rng).is_ok()
    );

    // The same proof against a wrong claimed product is rejected.
    let wrong_statement = product::Statement::new(
        mental_poker::arguments::hadamard::dup_points(&statement.a_commits),
        fr_from_u64(719),
    );
    let mut fs_rng = seed_transcript();
    assert!(product::ProductArgument::verify(
        &parameters,
        &wrong_statement,
        &proof,
        &mut fs_rng
    )
    .is_err());
}
