//! The cryptography and the encodings that other crates compute.
//!
//! Each function here makes one call into another crate. What it returns is either stated outright
//! or given a name (the functions without a body), with the few facts about the name that the rest
//! of the library rests on.
use base64::engine::general_purpose::{STANDARD, URL_SAFE_NO_PAD};
use base64::Engine;
use blake2::Digest;
use chacha20poly1305::aead::{Aead, Payload};
use chacha20poly1305::{ChaCha20Poly1305, KeyInit, Nonce, XChaCha20Poly1305, XNonce};
use ed25519_dalek::{Signature, Signer, SigningKey, VerifyingKey};
use hmac::{Hmac, Mac};
use rand::rngs::OsRng;
use rand::RngCore;
use sha2::Sha256;
use vstd::prelude::*;
use x25519_dalek::{PublicKey, StaticSecret};
use zeroize::Zeroize;

use crate::bytes::opt_view;

verus! {

use crate::b64::{b64std_text, b64url_text};

// ---------------------------------------------------------------- base64 and hex

/// `base64`'s `URL_SAFE_NO_PAD.encode`. It panics where the length of the text overflows.
#[verifier::external_body]
pub(crate) fn b64url_encode(bytes: &[u8]) -> (r: String)
    requires
        bytes@.len() <= usize::MAX / 4,
    ensures
        r@ == b64url_text(bytes@),
{
    URL_SAFE_NO_PAD.encode(bytes)
}

/// `base64`'s `URL_SAFE_NO_PAD.decode`: it accepts what `URL_SAFE_NO_PAD.encode` writes, and no
/// other text. Padding, and bits that are set after the last byte, are refused.
#[verifier::external_body]
pub(crate) fn b64url_decode(text: &str) -> (r: Option<Vec<u8>>)
    ensures
        match r {
            Some(bytes) => text@ == b64url_text(bytes@),
            None => forall|bytes: Seq<u8>| text@ != #[trigger] b64url_text(bytes),
        },
{
    URL_SAFE_NO_PAD.decode(text).ok()
}

/// `base64`'s `STANDARD.encode`. It panics where the length of the text overflows.
#[verifier::external_body]
pub(crate) fn b64std_encode(bytes: &[u8]) -> (r: String)
    requires
        bytes@.len() <= usize::MAX / 4,
    ensures
        r@ == b64std_text(bytes@),
{
    STANDARD.encode(bytes)
}

/// `base64`'s `STANDARD.decode`: it accepts what `STANDARD.encode` writes, and no other text.
/// Missing padding, and bits that are set after the last byte, are refused.
#[verifier::external_body]
pub(crate) fn b64std_decode(text: &str) -> (r: Option<Vec<u8>>)
    ensures
        match r {
            Some(bytes) => text@ == b64std_text(bytes@),
            None => forall|bytes: Seq<u8>| text@ != #[trigger] b64std_text(bytes),
        },
{
    STANDARD.decode(text).ok()
}

/// The lower-case hexadecimal digit for a value below sixteen.
pub open spec fn hex_digit(d: nat) -> char {
    if d < 10 {
        (48 + d) as char
    } else {
        (87 + d) as char
    }
}

/// Two lower-case hexadecimal digits for each byte.
pub open spec fn hex_text(bytes: Seq<u8>) -> Seq<char> {
    Seq::new(
        2 * bytes.len(),
        |i: int|
            hex_digit(
                if i % 2 == 0 {
                    bytes[i / 2] as nat / 16
                } else {
                    bytes[i / 2] as nat % 16
                },
            ),
    )
}

/// `hex::encode`: two lower-case digits for each byte.
#[verifier::external_body]
pub(crate) fn hex_encode(bytes: &[u8]) -> (r: String)
    requires
        bytes@.len() <= usize::MAX / 4,
    ensures
        r@ == hex_text(bytes@),
{
    hex::encode(bytes)
}

// ---------------------------------------------------------------- key derivation and digests

/// The longest output of HKDF with SHA-256.
pub const HKDF_MAX: usize = 8160;

/// HKDF with SHA-256: `len` bytes from `ikm`, for the optional `salt` and the given `info`.
pub uninterp spec fn hkdf_sha256(
    salt: Option<Seq<u8>>,
    ikm: Seq<u8>,
    info: Seq<u8>,
    len: nat,
) -> Seq<u8>;

/// No salt, an empty one, or one of as many zeros as the digest has bytes: HKDF takes the last
/// where there is none, and HMAC fills a short key up with zeros.
pub open spec fn is_plain_salt(salt: Option<Seq<u8>>) -> bool {
    ||| salt is None
    ||| salt == Some(Seq::<u8>::empty())
    ||| salt == Some(Seq::new(32, |i: int| 0u8))
}

/// `hkdf`'s `Hkdf::<Sha256>::new(salt, ikm).expand(info, ..)` on a buffer of `len` bytes: it fills
/// the buffer, or fails where `len` is over 255 times the digest's length. A shorter buffer gets
/// the first bytes of a longer one, and the three plain salts make no difference.
#[verifier::external_body]
pub(crate) fn hkdf_expand(salt: Option<&[u8]>, ikm: &[u8], info: &[u8], len: usize) -> (r: Option<
    Vec<u8>,
>)
    requires
        len <= isize::MAX,
    ensures
        r is Some <==> len <= HKDF_MAX,
        r matches Some(v) ==> v@ == hkdf_sha256(opt_view(salt), ikm@, info@, len as nat)
            && v@.len() == len,
        r matches Some(v) ==> forall|m: nat|
            m <= len ==> #[trigger] hkdf_sha256(opt_view(salt), ikm@, info@, m) == v@.take(
                m as int,
            ),
        r matches Some(v) ==> forall|other: Option<Seq<u8>>|
            is_plain_salt(opt_view(salt)) && is_plain_salt(other) ==> #[trigger] hkdf_sha256(
                other,
                ikm@,
                info@,
                len as nat,
            ) == v@,
{
    let mut okm = vec![0u8; len];
    hkdf::Hkdf::<Sha256>::new(salt, ikm).expand(info, &mut okm).ok().map(|_| okm)
}

/// HMAC with SHA-256 of `msg` under `key`.
pub uninterp spec fn hmac_sha256(key: Seq<u8>, msg: Seq<u8>) -> Seq<u8>;

/// `hmac`'s `Hmac::<Sha256>`: a key of any length is accepted, and the tag has 32 bytes.
#[verifier::external_body]
pub(crate) fn hmac_tag(key: &[u8], msg: &[u8]) -> (r: Option<Vec<u8>>)
    ensures
        r is Some,
        r->0@ == hmac_sha256(key@, msg@),
        r->0@.len() == 32,
{
    let mut mac = <Hmac<Sha256> as Mac>::new_from_slice(key).ok()?;
    mac.update(msg);
    Some(mac.finalize().into_bytes().to_vec())
}

/// The 64-byte BLAKE2b digest of `data`.
pub uninterp spec fn blake2b_512(data: Seq<u8>) -> Seq<u8>;

/// The 32-byte BLAKE2b digest of `data`.
pub uninterp spec fn blake2b_256(data: Seq<u8>) -> Seq<u8>;

/// `blake2`'s `Blake2b::<U32>::digest`.
#[verifier::external_body]
pub(crate) fn blake2b_digest32(data: &[u8]) -> (r: Vec<u8>)
    ensures
        r@ == blake2b_256(data@),
        r@.len() == 32,
{
    blake2::Blake2b::<blake2::digest::consts::U32>::digest(data).to_vec()
}

/// `blake2`'s `Blake2b512::digest`.
#[verifier::external_body]
pub(crate) fn blake2b_digest(data: &[u8]) -> (r: Vec<u8>)
    ensures
        r@ == blake2b_512(data@),
        r@.len() == 64,
{
    blake2::Blake2b512::digest(data).to_vec()
}

// ---------------------------------------------------------------- authenticated encryption

/// The longest plaintext that one key stream of ChaCha20 covers after its first block.
pub const AEAD_MAX: u64 = 274877906816;

/// The bytes that the authentication tag adds to a plaintext.
pub const TAG_LEN: usize = 16;

/// XChaCha20-Poly1305: the ciphertext of `pt`, its tag last.
pub uninterp spec fn xchacha_seal(key: Seq<u8>, nonce: Seq<u8>, pt: Seq<u8>, aad: Seq<u8>) -> Seq<
    u8,
>;

/// XChaCha20-Poly1305: the plaintext of `ct`, if its tag is right.
pub uninterp spec fn xchacha_open(
    key: Seq<u8>,
    nonce: Seq<u8>,
    ct: Seq<u8>,
    aad: Seq<u8>,
) -> Option<Seq<u8>>;

/// ChaCha20-Poly1305: the ciphertext of `pt`, its tag last.
pub uninterp spec fn chacha_seal(key: Seq<u8>, nonce: Seq<u8>, pt: Seq<u8>, aad: Seq<u8>) -> Seq<
    u8,
>;

/// ChaCha20-Poly1305: the plaintext of `ct`, if its tag is right.
pub uninterp spec fn chacha_open(key: Seq<u8>, nonce: Seq<u8>, ct: Seq<u8>, aad: Seq<u8>) -> Option<
    Seq<u8>,
>;

/// `other` is the ciphertext `ct` with another tag.
pub open spec fn tag_altered(ct: Seq<u8>, other: Seq<u8>) -> bool {
    &&& other.len() == ct.len()
    &&& other.take(ct.len() - TAG_LEN) == ct.take(ct.len() - TAG_LEN)
    &&& other != ct
}

/// `chacha20poly1305`'s `XChaCha20Poly1305::encrypt`. Within the length that one key stream covers
/// it succeeds, adds a tag of 16 bytes, and `XChaCha20Poly1305::decrypt` under the same key, nonce
/// and associated data gives the plaintext back. The tag is computed from all else, so decryption
/// refuses the ciphertext with any other tag.
#[verifier::external_body]
pub(crate) fn xchacha_encrypt(key: &[u8; 32], nonce: &[u8; 24], pt: &[u8], aad: &[u8]) -> (r:
    Option<Vec<u8>>)
    requires
        pt@.len() <= AEAD_MAX,
        pt@.len() + TAG_LEN <= isize::MAX,
    ensures
        r is Some,
        r->0@ == xchacha_seal(key@, nonce@, pt@, aad@),
        r->0@.len() == pt@.len() + TAG_LEN,
        xchacha_open(key@, nonce@, r->0@, aad@) == Some(pt@),
        forall|other: Seq<u8>|
            tag_altered(r->0@, other) ==> #[trigger] xchacha_open(
                key@,
                nonce@,
                other,
                aad@,
            ) is None,
{
    let cipher = XChaCha20Poly1305::new_from_slice(key).ok()?;
    cipher.encrypt(XNonce::from_slice(nonce), Payload { msg: pt, aad }).ok()
}

/// `chacha20poly1305`'s `XChaCha20Poly1305::decrypt`: what is left of the ciphertext without its
/// tag is as long as the plaintext.
#[verifier::external_body]
pub(crate) fn xchacha_decrypt(key: &[u8; 32], nonce: &[u8; 24], ct: &[u8], aad: &[u8]) -> (r:
    Option<Vec<u8>>)
    requires
        ct@.len() <= AEAD_MAX + TAG_LEN,
    ensures
        opt_view(r) == xchacha_open(key@, nonce@, ct@, aad@),
        r matches Some(pt) ==> pt@.len() + TAG_LEN == ct@.len(),
{
    let cipher = XChaCha20Poly1305::new_from_slice(key).ok()?;
    cipher.decrypt(XNonce::from_slice(nonce), Payload { msg: ct, aad }).ok()
}

/// `chacha20poly1305`'s `ChaCha20Poly1305::encrypt`. Within the length that one key stream covers
/// it succeeds, adds a tag of 16 bytes, and `ChaCha20Poly1305::decrypt` under the same key, nonce
/// and associated data gives the plaintext back. The tag is computed from all else, so decryption
/// refuses the ciphertext with any other tag.
#[verifier::external_body]
pub(crate) fn chacha_encrypt(key: &[u8; 32], nonce: &[u8; 12], pt: &[u8], aad: &[u8]) -> (r: Option<
    Vec<u8>,
>)
    requires
        pt@.len() <= AEAD_MAX,
        pt@.len() + TAG_LEN <= isize::MAX,
    ensures
        r is Some,
        r->0@ == chacha_seal(key@, nonce@, pt@, aad@),
        r->0@.len() == pt@.len() + TAG_LEN,
        chacha_open(key@, nonce@, r->0@, aad@) == Some(pt@),
        forall|other: Seq<u8>|
            tag_altered(r->0@, other) ==> #[trigger] chacha_open(key@, nonce@, other, aad@) is None,
{
    let cipher = ChaCha20Poly1305::new_from_slice(key).ok()?;
    cipher.encrypt(Nonce::from_slice(nonce), Payload { msg: pt, aad }).ok()
}

/// `chacha20poly1305`'s `ChaCha20Poly1305::decrypt`: what is left of the ciphertext without its
/// tag is as long as the plaintext.
#[verifier::external_body]
pub(crate) fn chacha_decrypt(key: &[u8; 32], nonce: &[u8; 12], ct: &[u8], aad: &[u8]) -> (r: Option<
    Vec<u8>,
>)
    requires
        ct@.len() <= AEAD_MAX + TAG_LEN,
    ensures
        opt_view(r) == chacha_open(key@, nonce@, ct@, aad@),
        r matches Some(pt) ==> pt@.len() + TAG_LEN == ct@.len(),
{
    let cipher = ChaCha20Poly1305::new_from_slice(key).ok()?;
    cipher.decrypt(Nonce::from_slice(nonce), Payload { msg: ct, aad }).ok()
}

// ---------------------------------------------------------------- Diffie-Hellman and signatures

/// The X25519 public key of a private key.
pub uninterp spec fn x25519_public(private: Seq<u8>) -> Seq<u8>;

/// The X25519 secret of a private key and another party's public key.
pub uninterp spec fn x25519(private: Seq<u8>, public: Seq<u8>) -> Seq<u8>;

/// `x25519_dalek`'s `PublicKey::from(&StaticSecret)`.
#[verifier::external_body]
pub(crate) fn x25519_public_key(private: &[u8; 32]) -> (r: [u8; 32])
    ensures
        r@ == x25519_public(private@),
{
    PublicKey::from(&StaticSecret::from(*private)).to_bytes()
}

/// `x25519_dalek`'s `StaticSecret::diffie_hellman`. Two parties agree: where `public` belongs to a
/// private key, that key and the public key of `private` give the same secret.
#[verifier::external_body]
pub(crate) fn x25519_shared(private: &[u8; 32], public: &[u8; 32]) -> (r: [u8; 32])
    ensures
        r@ == x25519(private@, public@),
        forall|other: Seq<u8>|
            other.len() == 32 && public@ == #[trigger] x25519_public(other) ==> r@ == x25519(
                other,
                x25519_public(private@),
            ),
{
    StaticSecret::from(*private).diffie_hellman(&PublicKey::from(*public)).to_bytes()
}

/// The Ed25519 verifying key of a seed.
pub uninterp spec fn ed25519_public(seed: Seq<u8>) -> Seq<u8>;

/// The Ed25519 signature of `msg` under a seed.
pub uninterp spec fn ed25519_signature(seed: Seq<u8>, msg: Seq<u8>) -> Seq<u8>;

/// Whether 32 bytes decode to an Ed25519 verifying key.
pub uninterp spec fn ed25519_is_key(key: Seq<u8>) -> bool;

/// Whether strict Ed25519 verification accepts a signature.
pub uninterp spec fn ed25519_accepts(key: Seq<u8>, msg: Seq<u8>, signature: Seq<u8>) -> bool;

/// The encoding of the neutral point of the curve.
pub open spec fn neutral_point() -> Seq<u8> {
    Seq::new(
        32,
        |i: int|
            if i == 0 {
                1u8
            } else {
                0u8
            },
    )
}

/// `ed25519_dalek`'s `SigningKey::from_bytes(seed).verifying_key()`. The bytes are the encoding of
/// a point, and decode to it again.
#[verifier::external_body]
pub(crate) fn ed25519_public_key(seed: &[u8; 32]) -> (r: [u8; 32])
    ensures
        r@ == ed25519_public(seed@),
        ed25519_is_key(r@),
{
    SigningKey::from_bytes(seed).verifying_key().to_bytes()
}

/// `ed25519_dalek`'s `SigningKey::from_bytes(seed).sign(msg)`. Strict verification under the key of
/// the seed accepts the signature, unless its first half is a point of small order. That half is a
/// multiple of the base point, whose order is prime, so that only the neutral point is meant; that
/// no message leads to it is not stated.
#[verifier::external_body]
pub(crate) fn ed25519_sign(seed: &[u8; 32], msg: &[u8]) -> (r: [u8; 64])
    ensures
        r@ == ed25519_signature(seed@, msg@),
        r@.take(32) != neutral_point() ==> ed25519_accepts(ed25519_public(seed@), msg@, r@),
{
    SigningKey::from_bytes(seed).sign(msg).to_bytes()
}

/// `ed25519_dalek`'s `VerifyingKey::from_bytes`: whether it accepts the bytes.
#[verifier::external_body]
pub(crate) fn ed25519_key_decodes(key: &[u8; 32]) -> (r: bool)
    ensures
        r == ed25519_is_key(key@),
{
    VerifyingKey::from_bytes(key).is_ok()
}

/// `ed25519_dalek`'s `VerifyingKey::verify_strict` under the key that the bytes decode to.
#[verifier::external_body]
pub(crate) fn ed25519_verify(key: &[u8; 32], msg: &[u8], signature: &[u8; 64]) -> (r: bool)
    ensures
        r == ed25519_accepts(key@, msg@, signature@),
{
    match VerifyingKey::from_bytes(key) {
        Ok(k) => k.verify_strict(msg, &Signature::from_bytes(signature)).is_ok(),
        Err(_) => false,
    }
}

// ---------------------------------------------------------------- randomness, time and wiping

/// `rand`'s `OsRng.try_fill_bytes`: bytes that the operating system draws, or none where it has no
/// randomness to give. Nothing else is known of them.
#[verifier::external_body]
pub(crate) fn random_array<const N: usize>() -> (r: Option<[u8; N]>) {
    let mut out = [0u8; N];
    OsRng.try_fill_bytes(&mut out).ok().map(|_| out)
}

/// `SystemTime::elapsed` on `UNIX_EPOCH`, in whole seconds: none where the clock stands before the
/// epoch. Nothing else is known of it.
#[verifier::external_body]
pub(crate) fn epoch_elapsed() -> (r: Option<u64>) {
    std::time::UNIX_EPOCH.elapsed().ok().map(|d| d.as_secs())
}

/// `zeroize`'s `Vec::zeroize`: overwrites the bytes and leaves the vector empty.
#[verifier::external_body]
pub(crate) fn wipe(secret: &mut Vec<u8>)
    ensures
        final(secret)@ == Seq::<u8>::empty(),
{
    secret.zeroize()
}

/// `zeroize`'s `zeroize` on an array: overwrites the bytes with zeros.
#[verifier::external_body]
pub(crate) fn wipe_key(secret: &mut [u8; 32])
    ensures
        final(secret)@ == Seq::new(32, |i: int| 0u8),
{
    secret.zeroize()
}

} // verus!
