use vstd::prelude::*;

verus! {

// The library holds every cryptographic value as its serialized bytes:
// secret shares and polynomial coefficients are the scalar's canonical
// 32-byte encoding, and every curve-point value (public shares, aggregate
// keys, blinded messages, signature shares, signatures) is the bincode
// encoding of the corresponding tbs type.  Each
// uninterpreted name below stands for what one deterministic outside
// computation returns on those bytes; the trusted wrappers tie the names to
// the calls, and everything around them is verified against the names.

/// The public key share derived from a secret share's bytes: what
/// `tbs::SecretKeyShare::to_pub_key_share` returns, serialized; empty where
/// the bytes do not decode to a scalar.
pub uninterp spec fn pub_share_of(sk: Seq<u8>) -> Seq<u8>;

/// One Horner step over serialized scalars, `acc * x + c`: what the curve
/// library's multiply-and-add returns, serialized; bytes that do not
/// decode count as zero.
pub uninterp spec fn scalar_mul_add(acc: Seq<u8>, x: u64, c: Seq<u8>) -> Seq<u8>;

/// The canonical encoding of the zero scalar: thirty-two zero bytes.
pub open spec fn zero_scalar_bytes() -> Seq<u8> {
    Seq::new(32, |i: int| 0u8)
}

/// The scalar obtained by Horner evaluation of the polynomial with these
/// serialized coefficients at the point `x`: the trusted multiply-add
/// step folded up from the zero scalar.
pub open spec fn poly_eval_at(coeffs: Seq<Seq<u8>>, x: u64) -> Seq<u8>
    decreases coeffs.len(),
{
    if coeffs.len() == 0 {
        zero_scalar_bytes()
    } else {
        scalar_mul_add(poly_eval_at(coeffs.drop_first(), x), x, coeffs[0])
    }
}

/// The aggregate public key `tbs::aggregate_public_key_shares` builds from
/// these shares, taken in order and indexed from one, serialized; shares
/// that do not decode are skipped, and no decodable share gives empty bytes.
pub uninterp spec fn agg_pk_of(shares: Seq<Seq<u8>>) -> Seq<u8>;

/// Whether `tbs::verify` accepts the signature on the message hashed from
/// the nonce bytes under the aggregate key; false where the key or the
/// signature bytes do not decode.
pub uninterp spec fn note_sig_valid(pk: Seq<u8>, nonce: Seq<u8>, sig: Seq<u8>) -> bool;

/// The blind-signature share `tbs::sign_blinded_msg` produces over the
/// blinded nonce with the secret share, serialized; empty where the bytes
/// do not decode.
pub uninterp spec fn blind_share_of(blind_nonce: Seq<u8>, sk: Seq<u8>) -> Seq<u8>;

/// Whether the schnorr signature covers the backup request whose canonical
/// bytes are the id, the timestamp big-endian, then the payload; false
/// where the key or the signature bytes do not decode.
pub uninterp spec fn backup_sig_valid(
    id: Seq<u8>,
    timestamp: u64,
    payload: Seq<u8>,
    sig: Seq<u8>,
) -> bool;

/// Relies on tbs::BlindingKey::random: a fresh random scalar, serialized.
/// Nothing is promised of the value.
#[verifier::external_body]
pub(crate) fn random_scalar_bytes() -> Vec<u8> {
    tbs::BlindingKey::random().0.to_bytes().to_vec()
}

/// Relies on tbs::SecretKeyShare::to_pub_key_share: the public counterpart
/// of a secret share, a deterministic function of the share bytes.
#[verifier::external_body]
pub(crate) fn derive_pub_share(sk: &Vec<u8>) -> (r: Vec<u8>)
    ensures
        r@ == pub_share_of(sk@),
{
    let arr: [u8; 32] = match <[u8; 32]>::try_from(sk.as_slice()) {
        Ok(a) => a,
        Err(_) => return Vec::new(),
    };
    let scalar = match Option::from(bls12_381::Scalar::from_bytes(&arr)) {
        Some(s) => s,
        None => return Vec::new(),
    };
    bincode::serialize(&tbs::SecretKeyShare(scalar).to_pub_key_share()).expect("share serializes")
}

/// Relies on the scalar arithmetic of bls12_381, the curve library under
/// tbs: one multiply-add step `acc * x + c` over serialized scalars,
/// deterministic in the bytes and the point.
#[verifier::external_body]
pub(crate) fn scalar_mul_add_step(acc: &Vec<u8>, x: u64, c: &Vec<u8>) -> (r: Vec<u8>)
    ensures
        r@ == scalar_mul_add(acc@, x, c@),
{
    let a = <[u8; 32]>::try_from(acc.as_slice()).ok()
        .and_then(|b| Option::<bls12_381::Scalar>::from(bls12_381::Scalar::from_bytes(&b)))
        .unwrap_or(bls12_381::Scalar::zero());
    let cc = <[u8; 32]>::try_from(c.as_slice()).ok()
        .and_then(|b| Option::<bls12_381::Scalar>::from(bls12_381::Scalar::from_bytes(&b)))
        .unwrap_or(bls12_381::Scalar::zero());
    (a * bls12_381::Scalar::from(x) + cc).to_bytes().to_vec()
}

/// Horner evaluation of the polynomial with these serialized coefficients
/// at `x`: a verified fold of the trusted multiply-add step, highest
/// coefficient first, starting from the zero scalar.
pub(crate) fn eval_poly_at(coeffs: &Vec<Vec<u8>>, x: u64) -> (r: Vec<u8>)
    ensures
        r@ == poly_eval_at(coeffs.deep_view(), x),
{
    let ghost dv = coeffs.deep_view();
    let mut acc: Vec<u8> = Vec::new();
    let mut z: usize = 0;
    while z < 32
        invariant
            z <= 32,
            acc@.len() == z,
            forall|j: int| 0 <= j < z ==> acc@[j] == 0u8,
        decreases 32 - z,
    {
        acc.push(0u8);
        z = z + 1;
    }
    proof {
        assert(acc@ =~= zero_scalar_bytes());
        assert(dv.skip(coeffs@.len() as int) =~= Seq::<Seq<u8>>::empty());
    }
    let mut i: usize = coeffs.len();
    while i > 0
        invariant
            dv == coeffs.deep_view(),
            dv.len() == coeffs@.len(),
            i <= coeffs@.len(),
            acc@ == poly_eval_at(dv.skip(i as int), x),
        decreases i,
    {
        i = i - 1;
        acc = scalar_mul_add_step(&acc, x, &coeffs[i]);
        proof {
            crate::db::lemma_bytes_deep_view(coeffs@[i as int]);
            assert(dv[i as int] == coeffs@[i as int]@);
            assert(dv.skip(i as int).drop_first() =~= dv.skip(i as int + 1));
            assert(dv.skip(i as int)[0] == dv[i as int]);
        }
    }
    proof {
        assert(dv.skip(0) =~= dv);
    }
    acc
}

/// Relies on tbs::aggregate_public_key_shares: the Lagrange interpolation
/// at zero of the shares, taken in order and indexed from one,
/// deterministic in the share bytes.
#[verifier::external_body]
pub(crate) fn aggregate_pub_shares(shares: &Vec<Vec<u8>>) -> (r: Vec<u8>)
    ensures
        r@ == agg_pk_of(shares.deep_view()),
{
    let keys: std::collections::BTreeMap<u64, tbs::PublicKeyShare> = shares
        .iter()
        .enumerate()
        .filter_map(|(i, b)| bincode::deserialize(b).ok().map(|k| (i as u64 + 1, k)))
        .collect();
    if keys.is_empty() {
        return Vec::new();
    }
    bincode::serialize(&tbs::aggregate_public_key_shares(&keys)).expect("a key serializes")
}

/// Relies on tbs::verify, with tbs::Message::from_bytes over the nonce:
/// whether the note's signature is valid under the aggregate key,
/// deterministic in the three byte strings.
#[verifier::external_body]
pub(crate) fn verify_note_signature(pk: &Vec<u8>, nonce: &Vec<u8>, sig: &Vec<u8>) -> (r: bool)
    ensures
        r == note_sig_valid(pk@, nonce@, sig@),
{
    let key: tbs::AggregatePublicKey = match bincode::deserialize(pk) {
        Ok(k) => k,
        Err(_) => return false,
    };
    let signature: tbs::Signature = match bincode::deserialize(sig) {
        Ok(s) => s,
        Err(_) => return false,
    };
    tbs::verify(tbs::Message::from_bytes(nonce), signature, key)
}

/// Relies on tbs::sign_blinded_msg: this peer's blind-signature share over
/// the blinded nonce, deterministic in the nonce and share bytes.
#[verifier::external_body]
pub(crate) fn sign_blinded_nonce(blind_nonce: &Vec<u8>, sk: &Vec<u8>) -> (r: Vec<u8>)
    ensures
        r@ == blind_share_of(blind_nonce@, sk@),
{
    let msg: tbs::BlindedMessage = match bincode::deserialize(blind_nonce) {
        Ok(m) => m,
        Err(_) => return Vec::new(),
    };
    let arr: [u8; 32] = match <[u8; 32]>::try_from(sk.as_slice()) {
        Ok(a) => a,
        Err(_) => return Vec::new(),
    };
    let scalar: bls12_381::Scalar = match Option::from(bls12_381::Scalar::from_bytes(&arr)) {
        Some(s) => s,
        None => return Vec::new(),
    };
    bincode::serialize(&tbs::sign_blinded_msg(msg, tbs::SecretKeyShare(scalar))).expect("shares")
}

/// Relies on secp256k1 schnorr verification over the SHA-256 of the
/// request's canonical bytes (the x-only key, the timestamp big-endian,
/// the payload), deterministic in its arguments.
#[verifier::external_body]
pub(crate) fn verify_backup_signature(
    id: &Vec<u8>,
    timestamp: u64,
    payload: &Vec<u8>,
    sig: &Vec<u8>,
) -> (r: bool)
    ensures
        r == backup_sig_valid(id@, timestamp, payload@, sig@),
{
    let key = match secp256k1::XOnlyPublicKey::from_slice(id) {
        Ok(k) => k,
        Err(_) => return false,
    };
    let signature = match secp256k1::schnorr::Signature::from_slice(sig) {
        Ok(s) => s,
        Err(_) => return false,
    };
    let mut bytes = id.clone();
    bytes.extend_from_slice(&timestamp.to_be_bytes());
    bytes.extend_from_slice(payload);
    let digest = <bitcoin_hashes::sha256::Hash as bitcoin_hashes::Hash>::hash(&bytes);
    let msg = secp256k1::Message::from_digest_slice(digest.as_ref()).expect("32 bytes");
    secp256k1::SECP256K1.verify_schnorr(&signature, &msg, &key).is_ok()
}


/// One Horner step over compressed G2 points, `acc * x + c`: what the
/// curve library's multiply-and-add returns, compressed again; bytes that
/// do not decode count as the identity.
pub uninterp spec fn g2_mul_add(acc: Seq<u8>, x: u64, c: Seq<u8>) -> Seq<u8>;

/// The encoding of a compressed G2 point as a stored public key share.
pub uninterp spec fn pub_share_encoding(point: Seq<u8>) -> Seq<u8>;

/// The compressed encoding of the G2 identity: the infinity flag byte,
/// then ninety-five zero bytes.
pub open spec fn g2_identity_bytes() -> Seq<u8> {
    Seq::new(
        96,
        |i: int|
            if i == 0 {
                0xc0u8
            } else {
                0u8
            },
    )
}

/// The compressed G2 point obtained by Horner evaluation of the polynomial
/// with these compressed coefficients at the point `x`: the trusted
/// multiply-add step folded up from the identity.
pub open spec fn g2_horner(coeffs: Seq<Seq<u8>>, x: u64) -> Seq<u8>
    decreases coeffs.len(),
{
    if coeffs.len() == 0 {
        g2_identity_bytes()
    } else {
        g2_mul_add(g2_horner(coeffs.drop_first(), x), x, coeffs[0])
    }
}

/// The public key share a polynomial of commitments yields for the point
/// `x`: the Horner value, stored in the share encoding.
pub open spec fn poly_eval_g2(coeffs: Seq<Seq<u8>>, x: u64) -> Seq<u8> {
    pub_share_encoding(g2_horner(coeffs, x))
}

/// Relies on the G2 arithmetic of bls12_381, the curve library under tbs:
/// one multiply-add step `acc * x + c` over compressed G2 points,
/// deterministic in the bytes and the point.
#[verifier::external_body]
pub(crate) fn g2_mul_add_step(acc: &Vec<u8>, x: u64, c: &Vec<u8>) -> (r: Vec<u8>)
    ensures
        r@ == g2_mul_add(acc@, x, c@),
{
    let a = <[u8; 96]>::try_from(acc.as_slice()).ok()
        .and_then(|b| Option::<bls12_381::G2Affine>::from(bls12_381::G2Affine::from_compressed(&b)))
        .unwrap_or(bls12_381::G2Affine::identity());
    let cc = <[u8; 96]>::try_from(c.as_slice()).ok()
        .and_then(|b| Option::<bls12_381::G2Affine>::from(bls12_381::G2Affine::from_compressed(&b)))
        .unwrap_or(bls12_381::G2Affine::identity());
    let p = bls12_381::G2Projective::from(a) * bls12_381::Scalar::from(x) + cc;
    bls12_381::G2Affine::from(p).to_compressed().to_vec()
}

/// Relies on the bincode encoding of a tbs public key share: wrap one
/// compressed G2 point as the share bytes a configuration stores,
/// deterministic in the point bytes.
#[verifier::external_body]
pub(crate) fn compressed_to_pub_share(point: &Vec<u8>) -> (r: Vec<u8>)
    ensures
        r@ == pub_share_encoding(point@),
{
    let a = <[u8; 96]>::try_from(point.as_slice()).ok()
        .and_then(|b| Option::<bls12_381::G2Affine>::from(bls12_381::G2Affine::from_compressed(&b)))
        .unwrap_or(bls12_381::G2Affine::identity());
    bincode::serialize(&tbs::PublicKeyShare(a)).expect("a key share serializes")
}

/// Horner evaluation of a polynomial of compressed G2 commitments at `x`,
/// the way a share of a distributed key generation is projected onto one
/// peer: a verified fold of the trusted multiply-add step, highest
/// coefficient first, starting from the identity, then stored as a share.
pub(crate) fn eval_poly_g2(coeffs: &Vec<Vec<u8>>, x: u64) -> (r: Vec<u8>)
    ensures
        r@ == poly_eval_g2(coeffs.deep_view(), x),
{
    let ghost dv = coeffs.deep_view();
    let mut acc: Vec<u8> = Vec::new();
    acc.push(0xc0u8);
    let mut z: usize = 1;
    while z < 96
        invariant
            1 <= z <= 96,
            acc@.len() == z,
            acc@[0] == 0xc0u8,
            forall|j: int| 1 <= j < z ==> acc@[j] == 0u8,
        decreases 96 - z,
    {
        acc.push(0u8);
        z = z + 1;
    }
    proof {
        assert(acc@ =~= g2_identity_bytes());
        assert(dv.skip(coeffs@.len() as int) =~= Seq::<Seq<u8>>::empty());
    }
    let mut i: usize = coeffs.len();
    while i > 0
        invariant
            dv == coeffs.deep_view(),
            dv.len() == coeffs@.len(),
            i <= coeffs@.len(),
            acc@ == g2_horner(dv.skip(i as int), x),
        decreases i,
    {
        i = i - 1;
        acc = g2_mul_add_step(&acc, x, &coeffs[i]);
        proof {
            crate::db::lemma_bytes_deep_view(coeffs@[i as int]);
            assert(dv[i as int] == coeffs@[i as int]@);
            assert(dv.skip(i as int).drop_first() =~= dv.skip(i as int + 1));
            assert(dv.skip(i as int)[0] == dv[i as int]);
        }
    }
    proof {
        assert(dv.skip(0) =~= dv);
    }
    compressed_to_pub_share(&acc)
}

} // verus!
