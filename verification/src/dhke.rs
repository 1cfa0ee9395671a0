//! Blind Diffie-Hellman key exchange over secp256k1: hashing a secret to a
//! curve point, signing a blinded point, and checking an unblinded signature.
//!
//! The curve arithmetic and the hash are those of the `bitcoin` crate. Their
//! results are named here, not defined: [`sha256`], [`point_decode`],
//! [`point_mul`] and [`point_of_secret`].

use vstd::bytes::{spec_u32_to_le_bytes, u32_to_le_bytes};
use vstd::prelude::*;

use crate::error::Error;

verus! {

/// The SHA-256 digest of `data`.
pub uninterp spec fn sha256(data: Seq<u8>) -> Seq<u8>;

/// The compressed encoding of the curve point that `data` encodes, where it
/// encodes one.
pub uninterp spec fn point_decode(data: Seq<u8>) -> Option<Seq<u8>>;

/// The compressed encoding of `scalar` times the point encoded by `point`,
/// where `point` encodes a point and the product is one.
pub uninterp spec fn point_mul(point: Seq<u8>, scalar: Seq<u8>) -> Option<Seq<u8>>;

/// The compressed encoding of the public key of the secret key `secret`,
/// where `secret` is a secret key.
pub uninterp spec fn point_of_secret(secret: Seq<u8>) -> Option<Seq<u8>>;

/// A point on the curve in its compressed encoding of 33 bytes.
#[derive(Clone, Copy, Debug, PartialEq, Eq, Hash)]
pub struct PublicKey {
    pub bytes: [u8; 33],
}

/// A scalar of the curve, as 32 bytes with the most significant first.
#[derive(Clone, Copy, PartialEq, Eq)]
pub struct SecretKey {
    pub bytes: [u8; 32],
}

/// Calls `bitcoin::hashes::sha256::Hash::hash` and hands back the 32 bytes
/// of the digest.
#[verifier::external_body]
pub(crate) fn sha256_digest(data: &Vec<u8>) -> (digest: [u8; 32])
    ensures
        digest@ == sha256(data@),
{
    let digest = <bitcoin::hashes::sha256::Hash as bitcoin::hashes::Hash>::hash(data);
    <bitcoin::hashes::sha256::Hash as bitcoin::hashes::Hash>::to_byte_array(digest)
}

/// Calls `bitcoin::secp256k1::PublicKey::from_slice` and hands back the
/// point in compressed form, or nothing where the bytes encode no point.
#[verifier::external_body]
fn decode_point(data: &Vec<u8>) -> (r: Option<PublicKey>)
    ensures
        r matches Some(p) ==> point_decode(data@) == Some(p.bytes@),
        r is None ==> point_decode(data@) is None,
{
    match bitcoin::secp256k1::PublicKey::from_slice(data) {
        Ok(point) => Some(PublicKey { bytes: point.serialize() }),
        Err(_) => None,
    }
}

/// Calls `bitcoin::secp256k1::PublicKey::mul_tweak` on the point that
/// `point` encodes, with `scalar` as the tweak, and hands back the product
/// in compressed form. Nothing comes back where `point` encodes no point,
/// `scalar` is not below the group order, or the product is no point.
#[verifier::external_body]
fn mul_point(point: &PublicKey, scalar: &SecretKey) -> (r: Option<PublicKey>)
    ensures
        r matches Some(p) ==> point_mul(point.bytes@, scalar.bytes@) == Some(p.bytes@),
        r is None ==> point_mul(point.bytes@, scalar.bytes@) is None,
{
    let parsed = bitcoin::secp256k1::PublicKey::from_slice(&point.bytes).ok()?;
    let tweak = bitcoin::secp256k1::Scalar::from_be_bytes(scalar.bytes).ok()?;
    let context = bitcoin::secp256k1::Secp256k1::verification_only();
    let product = parsed.mul_tweak(&context, &tweak).ok()?;
    Some(PublicKey { bytes: product.serialize() })
}

/// Calls `bitcoin::secp256k1::PublicKey::from_secret_key` and hands back the
/// public key in compressed form, or nothing where `secret` is zero or not
/// below the group order.
#[verifier::external_body]
fn secret_to_point(secret: &SecretKey) -> (r: Option<PublicKey>)
    ensures
        r matches Some(p) ==> point_of_secret(secret.bytes@) == Some(p.bytes@),
        r is None ==> point_of_secret(secret.bytes@) is None,
{
    let key = bitcoin::secp256k1::SecretKey::from_slice(&secret.bytes).ok()?;
    let context = bitcoin::secp256k1::Secp256k1::signing_only();
    let public = bitcoin::secp256k1::PublicKey::from_secret_key(&context, &key);
    Some(PublicKey { bytes: public.serialize() })
}

/// The bytes that are hashed in front of every message: the ASCII text
/// `Secp256k1_HashToCurve_Cashu_`.
pub open spec fn domain_separator() -> Seq<u8> {
    seq![
        83u8, 101u8, 99u8, 112u8, 50u8, 53u8, 54u8, 107u8, 49u8, 95u8, 72u8, 97u8, 115u8, 104u8,
        84u8, 111u8, 67u8, 117u8, 114u8, 118u8, 101u8, 95u8, 67u8, 97u8, 115u8, 104u8, 117u8, 95u8,
    ]
}

/// How many counters are tried before hashing to the curve gives up.
pub const MAX_CURVE_TRIES: u32 = 65536;

/// The bytes tried as a point for `message` at `counter`: the byte 2 and
/// the digest of the digest of the separated message followed by the
/// counter, least significant byte first.
pub open spec fn curve_candidate(message: Seq<u8>, counter: u32) -> Seq<u8> {
    seq![2u8] + sha256(sha256(domain_separator() + message) + spec_u32_to_le_bytes(counter))
}

/// Whether `counter` is the first at which `message` hashes to a point.
pub open spec fn first_point_at(message: Seq<u8>, counter: u32) -> bool {
    &&& counter < MAX_CURVE_TRIES
    &&& point_decode(curve_candidate(message, counter)) is Some
    &&& forall|c: u32| c < counter ==> point_decode(#[trigger] curve_candidate(message, c)) is None
}

/// Whether `message` hashes to the point `y`.
pub open spec fn hashes_to(message: Seq<u8>, y: PublicKey) -> bool {
    exists|counter: u32| #[trigger]
        first_point_at(message, counter) && point_decode(curve_candidate(message, counter))
            == Some(y.bytes@)
}

/// Whether `message` hashes to no point at all.
pub open spec fn hashes_to_nothing(message: Seq<u8>) -> bool {
    forall|c: u32|
        c < MAX_CURVE_TRIES ==> point_decode(#[trigger] curve_candidate(message, c)) is None
}

/// The point that `message` hashes to, where it hashes to one.
pub open spec fn y_of(message: Seq<u8>) -> Option<PublicKey> {
    if exists|y: PublicKey| hashes_to(message, y) {
        Some(choose|y: PublicKey| hashes_to(message, y))
    } else {
        None
    }
}

/// Whether `signature` is `key` times `point`.
pub open spec fn signs(key: SecretKey, point: PublicKey, signature: PublicKey) -> bool {
    point_mul(point.bytes@, key.bytes@) == Some(signature.bytes@)
}

/// A message hashes to at most one point.
pub proof fn lemma_hash_to_curve_unique(message: Seq<u8>, y1: PublicKey, y2: PublicKey)
    requires
        hashes_to(message, y1),
        hashes_to(message, y2),
    ensures
        y1 == y2,
{
    let c1 = choose|counter: u32| #[trigger]
        first_point_at(message, counter) && point_decode(curve_candidate(message, counter))
            == Some(y1.bytes@);
    let c2 = choose|counter: u32| #[trigger]
        first_point_at(message, counter) && point_decode(curve_candidate(message, counter))
            == Some(y2.bytes@);
    assert(c1 == c2) by {
        if c1 < c2 {
            assert(point_decode(curve_candidate(message, c1)) is None);
        }
        if c2 < c1 {
            assert(point_decode(curve_candidate(message, c2)) is None);
        }
    }
    assert(y1.bytes@ == y2.bytes@);
    assert(y1.bytes == y2.bytes);
}

/// A message that hashes to a point hashes to that point alone.
pub proof fn lemma_y_of(message: Seq<u8>, y: PublicKey)
    requires
        hashes_to(message, y),
    ensures
        y_of(message) == Some(y),
{
    let chosen = choose|y: PublicKey| hashes_to(message, y);
    lemma_hash_to_curve_unique(message, y, chosen);
}

/// A message none of whose candidates is a point hashes to no point.
pub proof fn lemma_y_of_nothing(message: Seq<u8>)
    requires
        hashes_to_nothing(message),
    ensures
        y_of(message) is None,
{
    if exists|y: PublicKey| hashes_to(message, y) {
        let y = choose|y: PublicKey| hashes_to(message, y);
        let c = choose|counter: u32| #[trigger]
            first_point_at(message, counter) && point_decode(curve_candidate(message, counter))
                == Some(y.bytes@);
        assert(point_decode(curve_candidate(message, c)) is None);
    }
}

/// Appends `source` to `target`.
pub fn append_bytes(target: &mut Vec<u8>, source: &[u8])
    ensures
        final(target)@ == old(target)@ + source@,
{
    let mut i: usize = 0;
    while i < source.len()
        invariant
            0 <= i <= source.len(),
            target@ == old(target)@ + source@.take(i as int),
        decreases source.len() - i,
    {
        target.push(source[i]);
        i = i + 1;
        assert(target@ =~= old(target)@ + source@.take(i as int));
    }
    assert(source@.take(i as int) =~= source@);
}

fn domain_separator_bytes() -> (r: Vec<u8>)
    ensures
        r@ == domain_separator(),
{
    let r: Vec<u8> = vec![
        83u8, 101u8, 99u8, 112u8, 50u8, 53u8, 54u8, 107u8, 49u8, 95u8, 72u8, 97u8, 115u8, 104u8,
        84u8, 111u8, 67u8, 117u8, 114u8, 118u8, 101u8, 95u8, 67u8, 97u8, 115u8, 104u8, 117u8, 95u8,
    ];
    assert(r@ =~= domain_separator());
    r
}

impl PublicKey {
    /// Whether two keys are the same point.
    pub fn same(&self, other: &PublicKey) -> (r: bool)
        ensures
            r == (*self == *other),
    {
        let mut i: usize = 0;
        while i < 33
            invariant
                0 <= i <= 33,
                forall|j: int| 0 <= j < i ==> self.bytes@[j] == other.bytes@[j],
            decreases 33 - i,
        {
            if self.bytes[i] != other.bytes[i] {
                return false;
            }
            i = i + 1;
        }
        assert(self.bytes@ =~= other.bytes@);
        assert(self.bytes == other.bytes);
        true
    }
}

/// Hashes `message` to a curve point: the first candidate, counting from
/// zero, that encodes a point. Fails with `NoValidPoint` where none of the
/// candidates does.
pub fn hash_to_curve(message: &Vec<u8>) -> (r: Result<PublicKey, Error>)
    ensures
        match r {
            Ok(y) => hashes_to(message@, y) && y_of(message@) == Some(y),
            Err(e) => e == Error::NoValidPoint && hashes_to_nothing(message@) && y_of(message@)
                is None,
        },
{
    let mut separated = domain_separator_bytes();
    append_bytes(&mut separated, message.as_slice());
    let message_hash = sha256_digest(&separated);
    let mut counter: u32 = 0;
    while counter < MAX_CURVE_TRIES
        invariant
            0 <= counter <= MAX_CURVE_TRIES,
            message_hash@ == sha256(domain_separator() + message@),
            forall|c: u32|
                c < counter ==> point_decode(#[trigger] curve_candidate(message@, c)) is None,
        decreases MAX_CURVE_TRIES - counter,
    {
        let mut to_hash: Vec<u8> = Vec::new();
        append_bytes(&mut to_hash, message_hash.as_slice());
        let counter_bytes = u32_to_le_bytes(counter);
        append_bytes(&mut to_hash, counter_bytes.as_slice());
        let digest = sha256_digest(&to_hash);
        let mut candidate: Vec<u8> = Vec::new();
        candidate.push(2u8);
        append_bytes(&mut candidate, digest.as_slice());
        assert(to_hash@ =~= message_hash@ + spec_u32_to_le_bytes(counter));
        assert(candidate@ =~= curve_candidate(message@, counter));
        match decode_point(&candidate) {
            Some(y) => {
                assert(first_point_at(message@, counter));
                proof {
                    lemma_y_of(message@, y);
                }
                return Ok(y);
            },
            None => {},
        }
        counter = counter + 1;
    }
    proof {
        lemma_y_of_nothing(message@);
    }
    Err(Error::NoValidPoint)
}

/// Signs the blinded point `blinded` with `key`: the signature is `key`
/// times the point. Fails with `InvalidPoint` where the product does not
/// exist.
pub fn sign_message(key: &SecretKey, blinded: &PublicKey) -> (r: Result<PublicKey, Error>)
    ensures
        match r {
            Ok(signature) => signs(*key, *blinded, signature),
            Err(e) => e == Error::InvalidPoint && point_mul(blinded.bytes@, key.bytes@) is None,
        },
{
    match mul_point(blinded, key) {
        Some(signature) => Ok(signature),
        None => Err(Error::InvalidPoint),
    }
}

/// Whether `signature` is what `key` makes of the point that `message`
/// hashes to.
pub open spec fn verifies(key: SecretKey, signature: PublicKey, message: Seq<u8>) -> bool {
    match y_of(message) {
        Some(y) => signs(key, y, signature),
        None => false,
    }
}

/// Checks an unblinded signature: `message` must hash to a point whose
/// product with `key` is `signature`.
pub fn verify_message(key: &SecretKey, signature: &PublicKey, message: &Vec<u8>) -> (r: Result<
    (),
    Error,
>)
    ensures
        r is Ok <==> verifies(*key, *signature, message@),
        r matches Err(e) ==> e == if y_of(message@) is None {
            Error::NoValidPoint
        } else {
            Error::TokenNotVerified
        },
{
    match hash_to_curve(message) {
        Err(e) => Err(e),
        Ok(y) => {
            match mul_point(&y, key) {
                Some(expected) => {
                    if expected.same(signature) {
                        Ok(())
                    } else {
                        proof {
                            if expected.bytes@ == signature.bytes@ {
                                assert(expected.bytes == signature.bytes);
                                assert(expected == *signature);
                            }
                        }
                        Err(Error::TokenNotVerified)
                    }
                },
                None => Err(Error::TokenNotVerified),
            }
        },
    }
}

/// The public key of `secret`, or `AmountKey` where `secret` is no key.
pub fn public_key_of(secret: &SecretKey) -> (r: Result<PublicKey, Error>)
    ensures
        match r {
            Ok(p) => point_of_secret(secret.bytes@) == Some(p.bytes@),
            Err(e) => e == Error::AmountKey && point_of_secret(secret.bytes@) is None,
        },
{
    match secret_to_point(secret) {
        Some(p) => Ok(p),
        None => Err(Error::AmountKey),
    }
}

} // verus!
