//! Hashing, base58 and ECDSA primitives, each a thin call into the crate that
//! implements it. The results are named by uninterpreted spec functions: the
//! contracts of the rest of the library are exact in terms of these names.
use num_bigint::{BigInt, Sign};
use secp256k1::{ecdsa::Signature, Message, PublicKey, Secp256k1, SecretKey};
use sha2::{Digest, Sha256};
use ripemd::Ripemd160;
use vstd::prelude::*;

verus! {

/// The SHA-256 digest of a byte string.
pub uninterp spec fn sha256_of(b: Seq<u8>) -> Seq<u8>;

/// The RIPEMD-160 digest of a byte string.
pub uninterp spec fn ripemd160_of(b: Seq<u8>) -> Seq<u8>;

/// The base58 (Bitcoin alphabet) text of a byte string.
pub uninterp spec fn base58_of(b: Seq<u8>) -> Seq<char>;

/// What base58 decoding makes of a text: `None` where a character lies
/// outside the alphabet.
pub uninterp spec fn base58_decoded(s: Seq<char>) -> Option<Seq<u8>>;

/// Whether 32 bytes are a valid secp256k1 secret key (non-zero, below the
/// group order).
pub uninterp spec fn secret_valid(secret: Seq<u8>) -> bool;

/// The 33-byte compressed public key of a secret key.
pub uninterp spec fn public_key_of(secret: Seq<u8>) -> Seq<u8>;

/// The DER-encoded ECDSA signature (RFC 6979 nonce) of a 32-byte digest.
pub uninterp spec fn ecdsa_signature_of(secret: Seq<u8>, digest: Seq<u8>) -> Seq<u8>;

/// Whether a DER signature over a 32-byte digest verifies under a public key.
pub uninterp spec fn ecdsa_accepts(public_key: Seq<u8>, digest: Seq<u8>, sig: Seq<u8>) -> bool;

/// The value of a byte string read as an unsigned big-endian integer.
pub open spec fn be_value(b: Seq<u8>) -> nat
    decreases b.len(),
{
    if b.len() == 0 {
        0
    } else {
        be_value(b.drop_last()) * 256 + b.last() as nat
    }
}

/// The lowercase hexadecimal digits.
pub open spec fn hex_digits() -> Seq<char> {
    seq!['0', '1', '2', '3', '4', '5', '6', '7', '8', '9', 'a', 'b', 'c', 'd', 'e', 'f']
}

/// The lowercase hexadecimal text of a byte string: two digits per byte,
/// high half first.
pub open spec fn hex_text(b: Seq<u8>) -> Seq<char>
    decreases b.len(),
{
    if b.len() == 0 {
        seq![]
    } else {
        hex_text(b.drop_last()) + seq![hex_digits()[b.last() as int / 16], hex_digits()[b.last() as int % 16]]
    }
}

/// Relies on `hex::encode`: lowercase, two digits per byte.
#[verifier::external_body]
pub(crate) fn hex_encode(b: &[u8]) -> (r: String)
    ensures
        r@ == hex_text(b@),
{
    hex::encode(b)
}

/// Relies on `sha2::Sha256::digest`: a 32-byte digest that depends on the
/// bytes alone.
#[verifier::external_body]
pub(crate) fn sha256(b: &[u8]) -> (r: Vec<u8>)
    ensures
        r@ == sha256_of(b@),
        r@.len() == 32,
{
    Sha256::digest(b).to_vec()
}

/// Relies on `ripemd::Ripemd160::digest`: a 20-byte digest that depends on
/// the bytes alone.
#[verifier::external_body]
pub(crate) fn ripemd160(b: &[u8]) -> (r: Vec<u8>)
    ensures
        r@ == ripemd160_of(b@),
        r@.len() == 20,
{
    Ripemd160::digest(b).to_vec()
}

/// Relies on `bs58::encode(..).into_string()`, and on `bs58::decode` taking
/// its text back to the same bytes.
#[verifier::external_body]
pub(crate) fn base58_encode(b: &[u8]) -> (r: String)
    ensures
        r@ == base58_of(b@),
        base58_decoded(r@) == Some(b@),
{
    bs58::encode(b).into_string()
}

/// Relies on `bs58::decode(..).into_vec()`; its error becomes `None`.
#[verifier::external_body]
pub(crate) fn base58_decode(s: &str) -> (r: Option<Vec<u8>>)
    ensures
        r matches Some(v) ==> base58_decoded(s@) == Some(v@),
        r is None ==> base58_decoded(s@) is None,
{
    bs58::decode(s).into_vec().ok()
}

/// Relies on `num_bigint::BigInt::from_bytes_be` with a positive sign, on
/// `BigInt << bits` and on the order of `BigInt`; `bits` is bounded so that
/// the shifted value stays small.
#[verifier::external_body]
pub(crate) fn below_power_of_two(b: &[u8], bits: u64) -> (r: bool)
    requires
        bits <= 512,
    ensures
        r == (be_value(b@) < vstd::arithmetic::power2::pow2(bits as nat)),
{
    BigInt::from_bytes_be(Sign::Plus, b) < (BigInt::from(1u64) << bits)
}

/// Relies on `secp256k1::SecretKey::from_slice`, which refuses a slice that
/// is not a valid secret key, and on `PublicKey::from_secret_key` and
/// `PublicKey::serialize` (33 bytes).
#[verifier::external_body]
pub(crate) fn public_key_from_secret(secret: &[u8]) -> (r: Option<Vec<u8>>)
    ensures
        r matches Some(pk) ==> pk@ == public_key_of(secret@) && pk@.len() == 33,
        r is Some <==> secret_valid(secret@),
{
    match SecretKey::from_slice(secret) {
        Ok(sk) => Some(PublicKey::from_secret_key(&Secp256k1::new(), &sk).serialize().to_vec()),
        Err(_) => None,
    }
}

/// Relies on `SecretKey::from_slice` and on `Secp256k1::sign_ecdsa`
/// (deterministic nonce), which cannot fail for a valid key and a 32-byte
/// digest, and on `Signature::serialize_der`: the signature verifies under
/// the public key of the same secret.
#[verifier::external_body]
pub(crate) fn ecdsa_sign(secret: &[u8], digest: &[u8]) -> (r: Option<Vec<u8>>)
    requires
        digest@.len() == 32,
    ensures
        r matches Some(sig) ==> sig@ == ecdsa_signature_of(secret@, digest@) && ecdsa_accepts(
            public_key_of(secret@),
            digest@,
            sig@,
        ),
        secret_valid(secret@) ==> r is Some,
{
    let sk = SecretKey::from_slice(secret).ok()?;
    let msg = Message::from_digest(<[u8; 32]>::try_from(digest).ok()?);
    Some(Secp256k1::new().sign_ecdsa(&msg, &sk).serialize_der().to_vec())
}

/// Relies on `Signature::from_der`, `PublicKey::from_slice` and
/// `Secp256k1::verify_ecdsa`; a parse failure counts as a rejection.
#[verifier::external_body]
pub(crate) fn ecdsa_verify(public_key: &[u8], digest: &[u8], sig: &[u8]) -> (r: bool)
    requires
        digest@.len() == 32,
    ensures
        r == ecdsa_accepts(public_key@, digest@, sig@),
{
    let (Ok(s), Ok(pk), Ok(d)) = (Signature::from_der(sig), PublicKey::from_slice(public_key), <[u8; 32]>::try_from(digest)) else {
        return false;
    };
    Secp256k1::verification_only().verify_ecdsa(&Message::from_digest(d), &s, &pk).is_ok()
}

/// Relies on `secp256k1::SecretKey::new` drawing from the operating system's
/// generator: a fresh valid secret key of 32 bytes.
#[verifier::external_body]
pub(crate) fn new_secret_key() -> (r: Vec<u8>)
    ensures
        r@.len() == 32,
        secret_valid(r@),
{
    SecretKey::new(&mut secp256k1::rand::rngs::OsRng).secret_bytes().to_vec()
}

/// Relies on `rand::random`: 24 bytes of arbitrary data.
#[verifier::external_body]
pub(crate) fn random_bytes() -> (r: Vec<u8>)
    ensures
        r@.len() == 24,
{
    rand::random::<[u8; 24]>().to_vec()
}

} // verus!
