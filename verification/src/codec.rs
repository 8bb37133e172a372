//! Canonical byte encodings of the protocol's composite values.
//!
//! A composite structure serializes as the concatenation of its fields in
//! declaration order, each group element and scalar in its canonical
//! 32-byte form.  Decoding validates group and field membership and
//! accepts only canonical encodings, so a successful parse pins the bytes
//! down exactly.

use vstd::prelude::*;

use crate::arguments::{hadamard, multi_exponentiation, product, shuffle, single_value_product,
    zero_argument};
use crate::elgamal::Ciphertext;
use crate::error::CryptoError;
use crate::pedersen::CommitKey;
use crate::schnorr;
use crate::group::{
    dlog, fr_from_bytes, fr_to_bytes, fr_val, g1_from_bytes, g1_to_bytes, ser_fr, ser_g1,
    GroupElem,
};
use crate::matrix::{cvs, pts, vals};
use crate::transcript::{ser_cipher, ser_ciphers, ser_ciphers_prefix, ser_points,
    ser_points_prefix};

verus! {

/// The concatenation of the serializations of the first `k` scalars.
pub open spec fn ser_scalars_prefix(vs: Seq<int>, k: nat) -> Seq<u8>
    decreases k,
{
    if k == 0 {
        Seq::empty()
    } else {
        ser_scalars_prefix(vs, (k - 1) as nat) + ser_fr(vs[k - 1])
    }
}

/// The concatenation of the serializations of a scalar sequence.
pub open spec fn ser_scalars(vs: Seq<int>) -> Seq<u8> {
    ser_scalars_prefix(vs, vs.len())
}

/// The encoding of a shuffle proof: the concatenation of every field's
/// canonical serialization, in declaration order, sub-proofs flattened.
pub open spec fn ser_shuffle_proof(p: shuffle::Proof) -> Seq<u8> {
    ser_points(pts(p.a_commits@)) + ser_points(pts(p.b_commits@)) + ser_g1(
        dlog(p.product_proof.d_commit),
    ) + ser_points(pts(p.product_proof.hadamard_proof.mid_commits@)) + ser_g1(
        dlog(p.product_proof.hadamard_proof.zero_proof.a0_commit),
    ) + ser_g1(dlog(p.product_proof.hadamard_proof.zero_proof.bm1_commit)) + ser_points(
        pts(p.product_proof.hadamard_proof.zero_proof.d_commits@),
    ) + ser_scalars(vals(p.product_proof.hadamard_proof.zero_proof.opened_a@)) + ser_fr(
        fr_val(p.product_proof.hadamard_proof.zero_proof.opened_r),
    ) + ser_scalars(vals(p.product_proof.hadamard_proof.zero_proof.opened_b@)) + ser_fr(
        fr_val(p.product_proof.hadamard_proof.zero_proof.opened_s),
    ) + ser_fr(fr_val(p.product_proof.hadamard_proof.zero_proof.opened_t)) + ser_g1(
        dlog(p.product_proof.svp_proof.d_commit),
    ) + ser_g1(dlog(p.product_proof.svp_proof.lo_commit)) + ser_g1(
        dlog(p.product_proof.svp_proof.hi_commit),
    ) + ser_scalars(vals(p.product_proof.svp_proof.opened_a@)) + ser_scalars(
        vals(p.product_proof.svp_proof.opened_b@),
    ) + ser_fr(fr_val(p.product_proof.svp_proof.opened_r)) + ser_fr(
        fr_val(p.product_proof.svp_proof.opened_s),
    ) + ser_g1(dlog(p.multiexp_proof.a0_commit)) + ser_points(pts(p.multiexp_proof.b_commits@))
        + ser_ciphers(cvs(p.multiexp_proof.diagonals@)) + ser_scalars(
        vals(p.multiexp_proof.opened_a@),
    ) + ser_fr(fr_val(p.multiexp_proof.opened_r)) + ser_fr(fr_val(p.multiexp_proof.opened_b))
        + ser_fr(fr_val(p.multiexp_proof.opened_s)) + ser_fr(fr_val(p.multiexp_proof.opened_tau))
}

/// Append one point's serialization.
fn write_point(out: &mut Vec<u8>, p: &GroupElem)
    ensures
        final(out)@ == old(out)@ + ser_g1(dlog(*p)),
{
    let mut piece = g1_to_bytes(p);
    out.append(&mut piece);
}

/// Append one scalar's serialization.
fn write_scalar(out: &mut Vec<u8>, s: &ark_bn254::Fr)
    ensures
        final(out)@ == old(out)@ + ser_fr(fr_val(*s)),
{
    let mut piece = fr_to_bytes(s);
    out.append(&mut piece);
}

/// Append the serializations of a list of points.
fn write_points(out: &mut Vec<u8>, ps: &Vec<GroupElem>)
    ensures
        final(out)@ == old(out)@ + ser_points(pts(ps@)),
{
    let ghost base = out@;
    let mut i: usize = 0;
    while i < ps.len()
        invariant
            i <= ps@.len(),
            out@ == base + ser_points_prefix(pts(ps@), i as nat),
        decreases ps@.len() - i,
    {
        write_point(out, &ps[i]);
        proof {
            assert(out@ =~= base + ser_points_prefix(pts(ps@), (i + 1) as nat));
        }
        i = i + 1;
    }
    proof {
        assert(base + ser_points_prefix(pts(ps@), 0) =~= base);
    }
}

/// Append the serializations of a list of scalars.
fn write_scalars(out: &mut Vec<u8>, vs: &Vec<ark_bn254::Fr>)
    ensures
        final(out)@ == old(out)@ + ser_scalars(vals(vs@)),
{
    let ghost base = out@;
    let mut i: usize = 0;
    while i < vs.len()
        invariant
            i <= vs@.len(),
            out@ == base + ser_scalars_prefix(vals(vs@), i as nat),
        decreases vs@.len() - i,
    {
        write_scalar(out, &vs[i]);
        proof {
            assert(out@ =~= base + ser_scalars_prefix(vals(vs@), (i + 1) as nat));
        }
        i = i + 1;
    }
    proof {
        assert(base + ser_scalars_prefix(vals(vs@), 0) =~= base);
    }
}

/// Append the serializations of a list of ciphertexts.
fn write_ciphers(out: &mut Vec<u8>, cs: &Vec<Ciphertext>)
    ensures
        final(out)@ == old(out)@ + ser_ciphers(cvs(cs@)),
{
    let ghost base = out@;
    let mut i: usize = 0;
    while i < cs.len()
        invariant
            i <= cs@.len(),
            out@ == base + ser_ciphers_prefix(cvs(cs@), i as nat),
        decreases cs@.len() - i,
    {
        write_point(out, &cs[i].c1);
        write_point(out, &cs[i].c2);
        proof {
            assert(out@ =~= base + ser_ciphers_prefix(cvs(cs@), (i + 1) as nat));
        }
        i = i + 1;
    }
    proof {
        assert(base + ser_ciphers_prefix(cvs(cs@), 0) =~= base);
    }
}

/// The canonical encoding of a masked card.
pub fn ciphertext_to_bytes(c: &Ciphertext) -> (r: Vec<u8>)
    ensures
        r@ == ser_cipher(c@),
{
    let mut out: Vec<u8> = Vec::new();
    write_point(&mut out, &c.c1);
    write_point(&mut out, &c.c2);
    proof {
        assert(Seq::<u8>::empty() + ser_g1(dlog(c.c1)) + ser_g1(dlog(c.c2)) =~= ser_cipher(c@));
    }
    out
}

/// Decode a masked card.  A successful parse pins the bytes down as the
/// card's canonical encoding; anything else is malformed.
pub fn ciphertext_from_bytes(bytes: &Vec<u8>) -> (r: Result<Ciphertext, CryptoError>)
    ensures
        r matches Ok(c) ==> ser_cipher(c@) == bytes@,
        r matches Err(e) ==> e == CryptoError::SerializationError,
{
    let mut idx: usize = 0;
    let c1 = match read_point(bytes, &mut idx) {
        Some(p) => p,
        None => {
            return Err(CryptoError::SerializationError);
        },
    };
    let c2 = match read_point(bytes, &mut idx) {
        Some(p) => p,
        None => {
            return Err(CryptoError::SerializationError);
        },
    };
    if idx != bytes.len() {
        return Err(CryptoError::SerializationError);
    }
    let c = Ciphertext { c1, c2 };
    proof {
        assert(bytes@.subrange(0, 64) =~= bytes@.subrange(0, 32) + bytes@.subrange(32, 64));
        assert(bytes@.subrange(0, 64) =~= bytes@);
    }
    Ok(c)
}

/// Byte-for-byte equality of two buffers.
fn bytes_eq(a: &Vec<u8>, b: &Vec<u8>) -> (r: bool)
    ensures
        r <==> a@ == b@,
{
    if a.len() != b.len() {
        proof {
            assert(a@.len() != b@.len());
        }
        return false;
    }
    let mut i: usize = 0;
    while i < a.len()
        invariant
            i <= a@.len(),
            a@.len() == b@.len(),
            forall|j: int| 0 <= j < i ==> a@[j] == b@[j],
        decreases a@.len() - i,
    {
        if a[i] != b[i] {
            return false;
        }
        i = i + 1;
    }
    proof {
        assert(a@ =~= b@);
    }
    true
}

/// Read one point from the running offset.
fn read_point(bytes: &Vec<u8>, idx: &mut usize) -> (r: Option<GroupElem>)
    ensures
        r matches Some(p) ==> *old(idx) + 32 == *final(idx) && *final(idx) <= bytes@.len()
            && ser_g1(dlog(p)) == bytes@.subrange(*old(idx) as int, *final(idx) as int),
        r is None ==> *final(idx) == *old(idx),
{
    let total = bytes.len();
    if total < 32 || *idx > total - 32 {
        return None;
    }
    let mut piece: Vec<u8> = Vec::new();
    let mut j: usize = 0;
    while j < 32
        invariant
            j <= 32,
            total == bytes@.len(),
            *idx + 32 <= total,
            piece@.len() == j,
            forall|l: int| 0 <= l < j ==> #[trigger] piece@[l] == bytes@[*idx + l],
        decreases 32 - j,
    {
        piece.push(bytes[*idx + j]);
        j = j + 1;
    }
    proof {
        assert(piece@ =~= bytes@.subrange(*idx as int, *idx as int + 32));
    }
    match g1_from_bytes(&piece) {
        Some(p) => {
            // The identity's flag encoding is not unique, so only the
            // canonical form is accepted: the parsed point must serialize
            // back to exactly these bytes.
            let back = g1_to_bytes(&p);
            if !bytes_eq(&back, &piece) {
                return None;
            }
            *idx = *idx + 32;
            Some(p)
        },
        None => None,
    }
}

/// Read one scalar from the running offset.
fn read_scalar(bytes: &Vec<u8>, idx: &mut usize) -> (r: Option<ark_bn254::Fr>)
    ensures
        r matches Some(s) ==> *old(idx) + 32 == *final(idx) && *final(idx) <= bytes@.len()
            && ser_fr(fr_val(s)) == bytes@.subrange(*old(idx) as int, *final(idx) as int),
        r is None ==> *final(idx) == *old(idx),
{
    let total = bytes.len();
    if total < 32 || *idx > total - 32 {
        return None;
    }
    let mut piece: Vec<u8> = Vec::new();
    let mut j: usize = 0;
    while j < 32
        invariant
            j <= 32,
            total == bytes@.len(),
            *idx + 32 <= total,
            piece@.len() == j,
            forall|l: int| 0 <= l < j ==> #[trigger] piece@[l] == bytes@[*idx + l],
        decreases 32 - j,
    {
        piece.push(bytes[*idx + j]);
        j = j + 1;
    }
    proof {
        assert(piece@ =~= bytes@.subrange(*idx as int, *idx as int + 32));
    }
    match fr_from_bytes(&piece) {
        Some(s) => {
            proof {
                assert(piece@.subrange(0, 32) =~= piece@);
            }
            *idx = *idx + 32;
            Some(s)
        },
        None => None,
    }
}

/// Read `count` points from the running offset.
fn read_points(bytes: &Vec<u8>, idx: &mut usize, count: usize) -> (r: Option<Vec<GroupElem>>)
    ensures
        r matches Some(v) ==> v@.len() == count && *old(idx) <= *final(idx) <= bytes@.len()
            && ser_points(pts(v@)) == bytes@.subrange(*old(idx) as int, *final(idx) as int),
{
    if *idx > bytes.len() {
        return None;
    }
    let ghost start = *idx;
    let mut out: Vec<GroupElem> = Vec::new();
    proof {
        assert(ser_points_prefix(pts(out@), 0) =~= bytes@.subrange(start as int, start as int));
    }
    let mut i: usize = 0;
    while i < count
        invariant
            i <= count,
            out@.len() == i,
            start <= *idx <= bytes@.len(),
            ser_points_prefix(pts(out@), i as nat) == bytes@.subrange(start as int, *idx as int),
        decreases count - i,
    {
        let ghost before = *idx;
        let p = match read_point(bytes, idx) {
            Some(p) => p,
            None => {
                return None;
            },
        };
        let ghost prev = out@;
        out.push(p);
        proof {
            assert(pts(out@) =~= pts(prev).push(dlog(p)));
            lemma_ser_points_prefix_congruence(pts(out@), pts(prev), i as nat);
            assert(ser_points_prefix(pts(out@), (i + 1) as nat) =~= ser_points_prefix(
                pts(prev),
                i as nat,
            ) + ser_g1(dlog(p)));
            assert(bytes@.subrange(start as int, *idx as int) =~= bytes@.subrange(
                start as int,
                before as int,
            ) + bytes@.subrange(before as int, *idx as int));
        }
        i = i + 1;
    }
    Some(out)
}

/// Read `count` scalars from the running offset.
fn read_scalars(bytes: &Vec<u8>, idx: &mut usize, count: usize) -> (r: Option<
    Vec<ark_bn254::Fr>,
>)
    ensures
        r matches Some(v) ==> v@.len() == count && *old(idx) <= *final(idx) <= bytes@.len()
            && ser_scalars(vals(v@)) == bytes@.subrange(*old(idx) as int, *final(idx) as int),
{
    if *idx > bytes.len() {
        return None;
    }
    let ghost start = *idx;
    let mut out: Vec<ark_bn254::Fr> = Vec::new();
    proof {
        assert(ser_scalars_prefix(vals(out@), 0) =~= bytes@.subrange(start as int, start as int));
    }
    let mut i: usize = 0;
    while i < count
        invariant
            i <= count,
            out@.len() == i,
            start <= *idx <= bytes@.len(),
            ser_scalars_prefix(vals(out@), i as nat) == bytes@.subrange(start as int, *idx as int),
        decreases count - i,
    {
        let ghost before = *idx;
        let s = match read_scalar(bytes, idx) {
            Some(s) => s,
            None => {
                return None;
            },
        };
        let ghost prev = out@;
        out.push(s);
        proof {
            assert(vals(out@) =~= vals(prev).push(fr_val(s)));
            lemma_ser_scalars_prefix_congruence(vals(out@), vals(prev), i as nat);
            assert(ser_scalars_prefix(vals(out@), (i + 1) as nat) =~= ser_scalars_prefix(
                vals(prev),
                i as nat,
            ) + ser_fr(fr_val(s)));
            assert(bytes@.subrange(start as int, *idx as int) =~= bytes@.subrange(
                start as int,
                before as int,
            ) + bytes@.subrange(before as int, *idx as int));
        }
        i = i + 1;
    }
    Some(out)
}

/// Read `count` ciphertexts from the running offset.
fn read_ciphers(bytes: &Vec<u8>, idx: &mut usize, count: usize) -> (r: Option<Vec<Ciphertext>>)
    ensures
        r matches Some(v) ==> v@.len() == count && *old(idx) <= *final(idx) <= bytes@.len()
            && ser_ciphers(cvs(v@)) == bytes@.subrange(*old(idx) as int, *final(idx) as int),
{
    if *idx > bytes.len() {
        return None;
    }
    let ghost start = *idx;
    let mut out: Vec<Ciphertext> = Vec::new();
    proof {
        assert(ser_ciphers_prefix(cvs(out@), 0) =~= bytes@.subrange(start as int, start as int));
    }
    let mut i: usize = 0;
    while i < count
        invariant
            i <= count,
            out@.len() == i,
            start <= *idx <= bytes@.len(),
            ser_ciphers_prefix(cvs(out@), i as nat) == bytes@.subrange(start as int, *idx as int),
        decreases count - i,
    {
        let ghost before = *idx;
        let c1 = match read_point(bytes, idx) {
            Some(p) => p,
            None => {
                return None;
            },
        };
        let ghost mid = *idx;
        let c2 = match read_point(bytes, idx) {
            Some(p) => p,
            None => {
                return None;
            },
        };
        let ghost cview = (dlog(c1), dlog(c2));
        let c = Ciphertext { c1, c2 };
        let ghost prev = out@;
        out.push(c);
        proof {
            assert(cvs(out@) =~= cvs(prev).push(cview));
            lemma_ser_ciphers_prefix_congruence(cvs(out@), cvs(prev), i as nat);
            assert(ser_ciphers_prefix(cvs(out@), (i + 1) as nat) =~= ser_ciphers_prefix(
                cvs(prev),
                i as nat,
            ) + ser_cipher(cview));
            assert(bytes@.subrange(before as int, *idx as int) =~= bytes@.subrange(
                before as int,
                mid as int,
            ) + bytes@.subrange(mid as int, *idx as int));
            assert(bytes@.subrange(start as int, *idx as int) =~= bytes@.subrange(
                start as int,
                before as int,
            ) + bytes@.subrange(before as int, *idx as int));
        }
        i = i + 1;
    }
    Some(out)
}

/// The prefix serializations only read the first `k` entries.
proof fn lemma_ser_points_prefix_congruence(a: Seq<int>, b: Seq<int>, k: nat)
    requires
        forall|i: int| 0 <= i < k ==> a[i] == b[i],
    ensures
        ser_points_prefix(a, k) == ser_points_prefix(b, k),
    decreases k,
{
    if k > 0 {
        lemma_ser_points_prefix_congruence(a, b, (k - 1) as nat);
    }
}

proof fn lemma_ser_scalars_prefix_congruence(a: Seq<int>, b: Seq<int>, k: nat)
    requires
        forall|i: int| 0 <= i < k ==> a[i] == b[i],
    ensures
        ser_scalars_prefix(a, k) == ser_scalars_prefix(b, k),
    decreases k,
{
    if k > 0 {
        lemma_ser_scalars_prefix_congruence(a, b, (k - 1) as nat);
    }
}

proof fn lemma_ser_ciphers_prefix_congruence(a: Seq<(int, int)>, b: Seq<(int, int)>, k: nat)
    requires
        forall|i: int| 0 <= i < k ==> a[i] == b[i],
    ensures
        ser_ciphers_prefix(a, k) == ser_ciphers_prefix(b, k),
    decreases k,
{
    if k > 0 {
        lemma_ser_ciphers_prefix_congruence(a, b, (k - 1) as nat);
    }
}

/// The encoding of a key-ownership proof: announcement then response.
pub open spec fn ser_key_ownership_proof(p: schnorr::Proof) -> Seq<u8> {
    ser_g1(dlog(p.announcement)) + ser_fr(fr_val(p.response))
}

/// The canonical encoding of a key-ownership proof.
pub fn key_ownership_proof_to_bytes(p: &schnorr::Proof) -> (r: Vec<u8>)
    ensures
        r@ == ser_key_ownership_proof(*p),
{
    let mut out: Vec<u8> = Vec::new();
    write_point(&mut out, &p.announcement);
    proof {
        assert(out@ =~= ser_g1(dlog(p.announcement)));
    }
    write_scalar(&mut out, &p.response);
    out
}

/// Decode a key-ownership proof; anything but a canonical encoding is
/// malformed.
pub fn key_ownership_proof_from_bytes(bytes: &Vec<u8>) -> (r: Result<schnorr::Proof, CryptoError>)
    ensures
        r matches Ok(p) ==> ser_key_ownership_proof(p) == bytes@,
        r matches Err(e) ==> e == CryptoError::SerializationError,
{
    let mut idx: usize = 0;
    let ghost before_a = idx;
    let announcement = match read_point(bytes, &mut idx) {
        Some(p) => p,
        None => {
            return Err(CryptoError::SerializationError);
        },
    };
    proof {
        assert(bytes@.subrange(0, idx as int) =~= bytes@.subrange(0, before_a as int)
            + bytes@.subrange(before_a as int, idx as int));
    }
    let ghost before_r = idx;
    let response = match read_scalar(bytes, &mut idx) {
        Some(s) => s,
        None => {
            return Err(CryptoError::SerializationError);
        },
    };
    proof {
        assert(bytes@.subrange(0, idx as int) =~= bytes@.subrange(0, before_r as int)
            + bytes@.subrange(before_r as int, idx as int));
    }
    if idx != bytes.len() {
        return Err(CryptoError::SerializationError);
    }
    let p = schnorr::Proof { announcement, response };
    proof {
        assert(bytes@.subrange(0, bytes@.len() as int) =~= bytes@);
    }
    Ok(p)
}

/// The encoding of a commit key: the blinder generator then the message
/// generators.
pub open spec fn ser_commit_key(k: CommitKey) -> Seq<u8> {
    ser_g1(dlog(k.h)) + ser_points(k.gs_vals())
}

/// The canonical encoding of a commit key.
pub fn commit_key_to_bytes(k: &CommitKey) -> (r: Vec<u8>)
    ensures
        r@ == ser_commit_key(*k),
{
    let mut out: Vec<u8> = Vec::new();
    write_point(&mut out, &k.h);
    proof {
        assert(out@ =~= ser_g1(dlog(k.h)));
    }
    write_points(&mut out, &k.gs);
    out
}

/// Decode a commit key of length `n`; anything but a canonical encoding
/// is malformed.
pub fn commit_key_from_bytes(bytes: &Vec<u8>, n: usize) -> (r: Result<CommitKey, CryptoError>)
    ensures
        r matches Ok(k) ==> k.spec_len() == n && ser_commit_key(k) == bytes@,
        r matches Err(e) ==> e == CryptoError::SerializationError,
{
    let mut idx: usize = 0;
    let ghost before_h = idx;
    let h = match read_point(bytes, &mut idx) {
        Some(p) => p,
        None => {
            return Err(CryptoError::SerializationError);
        },
    };
    proof {
        assert(bytes@.subrange(0, idx as int) =~= bytes@.subrange(0, before_h as int)
            + bytes@.subrange(before_h as int, idx as int));
    }
    let ghost before_g = idx;
    let gs = match read_points(bytes, &mut idx, n) {
        Some(v) => v,
        None => {
            return Err(CryptoError::SerializationError);
        },
    };
    proof {
        assert(bytes@.subrange(0, idx as int) =~= bytes@.subrange(0, before_g as int)
            + bytes@.subrange(before_g as int, idx as int));
    }
    if idx != bytes.len() {
        return Err(CryptoError::SerializationError);
    }
    let k = CommitKey { h, gs };
    proof {
        assert(bytes@.subrange(0, bytes@.len() as int) =~= bytes@);
    }
    Ok(k)
}

/// The canonical encoding of a shuffle proof: the concatenation of its
/// fields in declaration order.
pub fn shuffle_proof_to_bytes(p: &shuffle::Proof) -> (r: Vec<u8>)
    ensures
        r@ == ser_shuffle_proof(*p),
{
    let mut out: Vec<u8> = Vec::new();
    write_points(&mut out, &p.a_commits);
    proof {
        assert(out@ =~= ser_points(pts(p.a_commits@)));
    }
    write_points(&mut out, &p.b_commits);
    write_point(&mut out, &p.product_proof.d_commit);
    write_points(&mut out, &p.product_proof.hadamard_proof.mid_commits);
    write_point(&mut out, &p.product_proof.hadamard_proof.zero_proof.a0_commit);
    write_point(&mut out, &p.product_proof.hadamard_proof.zero_proof.bm1_commit);
    write_points(&mut out, &p.product_proof.hadamard_proof.zero_proof.d_commits);
    write_scalars(&mut out, &p.product_proof.hadamard_proof.zero_proof.opened_a);
    write_scalar(&mut out, &p.product_proof.hadamard_proof.zero_proof.opened_r);
    write_scalars(&mut out, &p.product_proof.hadamard_proof.zero_proof.opened_b);
    write_scalar(&mut out, &p.product_proof.hadamard_proof.zero_proof.opened_s);
    write_scalar(&mut out, &p.product_proof.hadamard_proof.zero_proof.opened_t);
    write_point(&mut out, &p.product_proof.svp_proof.d_commit);
    write_point(&mut out, &p.product_proof.svp_proof.lo_commit);
    write_point(&mut out, &p.product_proof.svp_proof.hi_commit);
    write_scalars(&mut out, &p.product_proof.svp_proof.opened_a);
    write_scalars(&mut out, &p.product_proof.svp_proof.opened_b);
    write_scalar(&mut out, &p.product_proof.svp_proof.opened_r);
    write_scalar(&mut out, &p.product_proof.svp_proof.opened_s);
    write_point(&mut out, &p.multiexp_proof.a0_commit);
    write_points(&mut out, &p.multiexp_proof.b_commits);
    write_ciphers(&mut out, &p.multiexp_proof.diagonals);
    write_scalars(&mut out, &p.multiexp_proof.opened_a);
    write_scalar(&mut out, &p.multiexp_proof.opened_r);
    write_scalar(&mut out, &p.multiexp_proof.opened_b);
    write_scalar(&mut out, &p.multiexp_proof.opened_s);
    write_scalar(&mut out, &p.multiexp_proof.opened_tau);
    out
}

/// Decode a shuffle proof for an m-by-n statement.  A successful parse
/// yields a proof with the matching component counts whose canonical
/// encoding is exactly the input.
pub fn shuffle_proof_from_bytes(bytes: &Vec<u8>, m: usize, n: usize) -> (r: Result<
    shuffle::Proof,
    CryptoError,
>)
    requires
        2 <= m,
        3 * (m as int) + 3 <= usize::MAX,
    ensures
        r matches Ok(p) ==> ser_shuffle_proof(p) == bytes@,
        r matches Err(e) ==> e == CryptoError::SerializationError,
{
    let mut idx: usize = 0;
    let ghost before_a_commits = idx;
    let a_commits = match read_points(bytes, &mut idx, m) {
        Some(v) => v,
        None => {
            return Err(CryptoError::SerializationError);
        },
    };
    proof {
        assert(bytes@.subrange(0, idx as int) =~= bytes@.subrange(0, before_a_commits as int)
            + bytes@.subrange(before_a_commits as int, idx as int));
    }
    let ghost before_b_commits = idx;
    let b_commits = match read_points(bytes, &mut idx, m) {
        Some(v) => v,
        None => {
            return Err(CryptoError::SerializationError);
        },
    };
    proof {
        assert(bytes@.subrange(0, idx as int) =~= bytes@.subrange(0, before_b_commits as int)
            + bytes@.subrange(before_b_commits as int, idx as int));
    }
    let ghost before_pa_d_commit = idx;
    let pa_d_commit = match read_point(bytes, &mut idx) {
        Some(v) => v,
        None => {
            return Err(CryptoError::SerializationError);
        },
    };
    proof {
        assert(bytes@.subrange(0, idx as int) =~= bytes@.subrange(0, before_pa_d_commit as int)
            + bytes@.subrange(before_pa_d_commit as int, idx as int));
    }
    let ghost before_mid_commits = idx;
    let mid_commits = match read_points(bytes, &mut idx, m - 2) {
        Some(v) => v,
        None => {
            return Err(CryptoError::SerializationError);
        },
    };
    proof {
        assert(bytes@.subrange(0, idx as int) =~= bytes@.subrange(0, before_mid_commits as int)
            + bytes@.subrange(before_mid_commits as int, idx as int));
    }
    let ghost before_z_a0 = idx;
    let z_a0 = match read_point(bytes, &mut idx) {
        Some(v) => v,
        None => {
            return Err(CryptoError::SerializationError);
        },
    };
    proof {
        assert(bytes@.subrange(0, idx as int) =~= bytes@.subrange(0, before_z_a0 as int)
            + bytes@.subrange(before_z_a0 as int, idx as int));
    }
    let ghost before_z_bm1 = idx;
    let z_bm1 = match read_point(bytes, &mut idx) {
        Some(v) => v,
        None => {
            return Err(CryptoError::SerializationError);
        },
    };
    proof {
        assert(bytes@.subrange(0, idx as int) =~= bytes@.subrange(0, before_z_bm1 as int)
            + bytes@.subrange(before_z_bm1 as int, idx as int));
    }
    let ghost before_z_d = idx;
    let z_d = match read_points(bytes, &mut idx, 2 * m + 1) {
        Some(v) => v,
        None => {
            return Err(CryptoError::SerializationError);
        },
    };
    proof {
        assert(bytes@.subrange(0, idx as int) =~= bytes@.subrange(0, before_z_d as int)
            + bytes@.subrange(before_z_d as int, idx as int));
    }
    let ghost before_z_oa = idx;
    let z_oa = match read_scalars(bytes, &mut idx, n) {
        Some(v) => v,
        None => {
            return Err(CryptoError::SerializationError);
        },
    };
    proof {
        assert(bytes@.subrange(0, idx as int) =~= bytes@.subrange(0, before_z_oa as int)
            + bytes@.subrange(before_z_oa as int, idx as int));
    }
    let ghost before_z_or = idx;
    let z_or = match read_scalar(bytes, &mut idx) {
        Some(v) => v,
        None => {
            return Err(CryptoError::SerializationError);
        },
    };
    proof {
        assert(bytes@.subrange(0, idx as int) =~= bytes@.subrange(0, before_z_or as int)
            + bytes@.subrange(before_z_or as int, idx as int));
    }
    let ghost before_z_ob = idx;
    let z_ob = match read_scalars(bytes, &mut idx, n) {
        Some(v) => v,
        None => {
            return Err(CryptoError::SerializationError);
        },
    };
    proof {
        assert(bytes@.subrange(0, idx as int) =~= bytes@.subrange(0, before_z_ob as int)
            + bytes@.subrange(before_z_ob as int, idx as int));
    }
    let ghost before_z_os = idx;
    let z_os = match read_scalar(bytes, &mut idx) {
        Some(v) => v,
        None => {
            return Err(CryptoError::SerializationError);
        },
    };
    proof {
        assert(bytes@.subrange(0, idx as int) =~= bytes@.subrange(0, before_z_os as int)
            + bytes@.subrange(before_z_os as int, idx as int));
    }
    let ghost before_z_ot = idx;
    let z_ot = match read_scalar(bytes, &mut idx) {
        Some(v) => v,
        None => {
            return Err(CryptoError::SerializationError);
        },
    };
    proof {
        assert(bytes@.subrange(0, idx as int) =~= bytes@.subrange(0, before_z_ot as int)
            + bytes@.subrange(before_z_ot as int, idx as int));
    }
    let ghost before_s_d = idx;
    let s_d = match read_point(bytes, &mut idx) {
        Some(v) => v,
        None => {
            return Err(CryptoError::SerializationError);
        },
    };
    proof {
        assert(bytes@.subrange(0, idx as int) =~= bytes@.subrange(0, before_s_d as int)
            + bytes@.subrange(before_s_d as int, idx as int));
    }
    let ghost before_s_lo = idx;
    let s_lo = match read_point(bytes, &mut idx) {
        Some(v) => v,
        None => {
            return Err(CryptoError::SerializationError);
        },
    };
    proof {
        assert(bytes@.subrange(0, idx as int) =~= bytes@.subrange(0, before_s_lo as int)
            + bytes@.subrange(before_s_lo as int, idx as int));
    }
    let ghost before_s_hi = idx;
    let s_hi = match read_point(bytes, &mut idx) {
        Some(v) => v,
        None => {
            return Err(CryptoError::SerializationError);
        },
    };
    proof {
        assert(bytes@.subrange(0, idx as int) =~= bytes@.subrange(0, before_s_hi as int)
            + bytes@.subrange(before_s_hi as int, idx as int));
    }
    let ghost before_s_oa = idx;
    let s_oa = match read_scalars(bytes, &mut idx, n) {
        Some(v) => v,
        None => {
            return Err(CryptoError::SerializationError);
        },
    };
    proof {
        assert(bytes@.subrange(0, idx as int) =~= bytes@.subrange(0, before_s_oa as int)
            + bytes@.subrange(before_s_oa as int, idx as int));
    }
    let ghost before_s_ob = idx;
    let s_ob = match read_scalars(bytes, &mut idx, n) {
        Some(v) => v,
        None => {
            return Err(CryptoError::SerializationError);
        },
    };
    proof {
        assert(bytes@.subrange(0, idx as int) =~= bytes@.subrange(0, before_s_ob as int)
            + bytes@.subrange(before_s_ob as int, idx as int));
    }
    let ghost before_s_or = idx;
    let s_or = match read_scalar(bytes, &mut idx) {
        Some(v) => v,
        None => {
            return Err(CryptoError::SerializationError);
        },
    };
    proof {
        assert(bytes@.subrange(0, idx as int) =~= bytes@.subrange(0, before_s_or as int)
            + bytes@.subrange(before_s_or as int, idx as int));
    }
    let ghost before_s_os = idx;
    let s_os = match read_scalar(bytes, &mut idx) {
        Some(v) => v,
        None => {
            return Err(CryptoError::SerializationError);
        },
    };
    proof {
        assert(bytes@.subrange(0, idx as int) =~= bytes@.subrange(0, before_s_os as int)
            + bytes@.subrange(before_s_os as int, idx as int));
    }
    let ghost before_e_a0 = idx;
    let e_a0 = match read_point(bytes, &mut idx) {
        Some(v) => v,
        None => {
            return Err(CryptoError::SerializationError);
        },
    };
    proof {
        assert(bytes@.subrange(0, idx as int) =~= bytes@.subrange(0, before_e_a0 as int)
            + bytes@.subrange(before_e_a0 as int, idx as int));
    }
    let ghost before_e_b = idx;
    let e_b = match read_points(bytes, &mut idx, 2 * m) {
        Some(v) => v,
        None => {
            return Err(CryptoError::SerializationError);
        },
    };
    proof {
        assert(bytes@.subrange(0, idx as int) =~= bytes@.subrange(0, before_e_b as int)
            + bytes@.subrange(before_e_b as int, idx as int));
    }
    let ghost before_e_diag = idx;
    let e_diag = match read_ciphers(bytes, &mut idx, 2 * m) {
        Some(v) => v,
        None => {
            return Err(CryptoError::SerializationError);
        },
    };
    proof {
        assert(bytes@.subrange(0, idx as int) =~= bytes@.subrange(0, before_e_diag as int)
            + bytes@.subrange(before_e_diag as int, idx as int));
    }
    let ghost before_e_oa = idx;
    let e_oa = match read_scalars(bytes, &mut idx, n) {
        Some(v) => v,
        None => {
            return Err(CryptoError::SerializationError);
        },
    };
    proof {
        assert(bytes@.subrange(0, idx as int) =~= bytes@.subrange(0, before_e_oa as int)
            + bytes@.subrange(before_e_oa as int, idx as int));
    }
    let ghost before_e_or = idx;
    let e_or = match read_scalar(bytes, &mut idx) {
        Some(v) => v,
        None => {
            return Err(CryptoError::SerializationError);
        },
    };
    proof {
        assert(bytes@.subrange(0, idx as int) =~= bytes@.subrange(0, before_e_or as int)
            + bytes@.subrange(before_e_or as int, idx as int));
    }
    let ghost before_e_ob = idx;
    let e_ob = match read_scalar(bytes, &mut idx) {
        Some(v) => v,
        None => {
            return Err(CryptoError::SerializationError);
        },
    };
    proof {
        assert(bytes@.subrange(0, idx as int) =~= bytes@.subrange(0, before_e_ob as int)
            + bytes@.subrange(before_e_ob as int, idx as int));
    }
    let ghost before_e_os = idx;
    let e_os = match read_scalar(bytes, &mut idx) {
        Some(v) => v,
        None => {
            return Err(CryptoError::SerializationError);
        },
    };
    proof {
        assert(bytes@.subrange(0, idx as int) =~= bytes@.subrange(0, before_e_os as int)
            + bytes@.subrange(before_e_os as int, idx as int));
    }
    let ghost before_e_otau = idx;
    let e_otau = match read_scalar(bytes, &mut idx) {
        Some(v) => v,
        None => {
            return Err(CryptoError::SerializationError);
        },
    };
    proof {
        assert(bytes@.subrange(0, idx as int) =~= bytes@.subrange(0, before_e_otau as int)
            + bytes@.subrange(before_e_otau as int, idx as int));
    }
    if idx != bytes.len() {
        return Err(CryptoError::SerializationError);
    }
    let p = shuffle::Proof {
        a_commits,
        b_commits,
        product_proof: product::Proof {
            d_commit: pa_d_commit,
            hadamard_proof: hadamard::Proof {
                mid_commits,
                zero_proof: zero_argument::Proof {
                    a0_commit: z_a0,
                    bm1_commit: z_bm1,
                    d_commits: z_d,
                    opened_a: z_oa,
                    opened_r: z_or,
                    opened_b: z_ob,
                    opened_s: z_os,
                    opened_t: z_ot,
                },
            },
            svp_proof: single_value_product::Proof {
                d_commit: s_d,
                lo_commit: s_lo,
                hi_commit: s_hi,
                opened_a: s_oa,
                opened_b: s_ob,
                opened_r: s_or,
                opened_s: s_os,
            },
        },
        multiexp_proof: multi_exponentiation::Proof {
            a0_commit: e_a0,
            b_commits: e_b,
            diagonals: e_diag,
            opened_a: e_oa,
            opened_r: e_or,
            opened_b: e_ob,
            opened_s: e_os,
            opened_tau: e_otau,
        },
    };
    proof {
        assert(bytes@.subrange(0, bytes@.len() as int) =~= bytes@);
    }
    Ok(p)
}

} // verus!
