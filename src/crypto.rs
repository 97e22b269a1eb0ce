//! Calls into the hashing, signing, identifier and clock crates.
use vstd::prelude::*;

verus! {

/// The BLAKE3 digest of a byte string.
pub uninterp spec fn blake3_digest(data: Seq<u8>) -> Seq<u8>;

/// Whether an Ed25519 public key accepts a signature over a message.
pub uninterp spec fn ed25519_accepts(public_key: Seq<u8>, message: Seq<u8>, signature: Seq<u8>) -> bool;

#[verifier::external_type_specification]
#[verifier::external_body]
pub struct ExEd25519KeyPair(ring::signature::Ed25519KeyPair);

/// Relies on blake3::hash: a 32-byte digest that depends on the input alone.
#[verifier::external_body]
pub(crate) fn blake3_hash(data: &Vec<u8>) -> (r: Vec<u8>)
    ensures
        r@ == blake3_digest(data@),
        r@.len() == 32,
{
    blake3::hash(data.as_slice()).as_bytes().to_vec()
}

/// Relies on ring's UnparsedPublicKey::verify with the ED25519 algorithm:
/// the verdict depends on the key, the message and the signature alone.
#[verifier::external_body]
pub(crate) fn ed25519_verify(public_key: &Vec<u8>, message: &Vec<u8>, signature: &Vec<u8>) -> (r: bool)
    ensures
        r == ed25519_accepts(public_key@, message@, signature@),
{
    ring::signature::UnparsedPublicKey::new(&ring::signature::ED25519, public_key.as_slice())
        .verify(message.as_slice(), signature.as_slice())
        .is_ok()
}

/// Relies on ring's Ed25519KeyPair::from_pkcs8: `None` where the document is rejected.
#[verifier::external_body]
pub(crate) fn key_pair_from_pkcs8(pkcs8: &Vec<u8>) -> (r: Option<ring::signature::Ed25519KeyPair>)
{
    ring::signature::Ed25519KeyPair::from_pkcs8(pkcs8.as_slice()).ok()
}

/// Relies on ring's KeyPair::public_key for Ed25519KeyPair: the 32-byte public key.
#[verifier::external_body]
pub(crate) fn public_key_bytes(key_pair: &ring::signature::Ed25519KeyPair) -> (r: Vec<u8>)
    ensures
        r@.len() == 32,
{
    ring::signature::KeyPair::public_key(key_pair).as_ref().to_vec()
}

/// Relies on ring's Ed25519KeyPair::sign and KeyPair::public_key: a 64-byte
/// Ed25519 signature over `message`, returned with the key pair's 32-byte
/// public key, which accepts it.
#[verifier::external_body]
pub(crate) fn ed25519_sign(key_pair: &ring::signature::Ed25519KeyPair, message: &Vec<u8>) -> (r: (
    Vec<u8>,
    Vec<u8>,
))
    ensures
        r.0@.len() == 32,
        r.1@.len() == 64,
        ed25519_accepts(r.0@, message@, r.1@),
{
    let public_key = ring::signature::KeyPair::public_key(key_pair).as_ref().to_vec();
    (public_key, key_pair.sign(message.as_slice()).as_ref().to_vec())
}

/// Relies on uuid::Uuid::new_v4: a random identifier; nothing is promised of its value.
#[verifier::external_body]
pub(crate) fn fresh_id() -> (r: u128)
{
    uuid::Uuid::new_v4().as_u128()
}

/// Relies on chrono::Utc::now: the current time in seconds since the Unix epoch.
#[verifier::external_body]
pub(crate) fn now_seconds() -> (r: i64)
{
    chrono::Utc::now().timestamp()
}

/// The digest a record carries: the BLAKE3 digest of its encrypted payload.
pub fn calculate_record_hash(data: &Vec<u8>) -> (r: Vec<u8>)
    ensures
        r@ == blake3_digest(data@),
        r@.len() == 32,
{
    blake3_hash(data)
}

} // verus!
