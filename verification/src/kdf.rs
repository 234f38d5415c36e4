//! Key derivation, message encryption and signature checks over named primitives.
use vstd::prelude::*;
use vstd::slice::*;
use vstd::string::*;

use crate::bytes::{read_array64, res_view};
use crate::encoding::{b64_decode, fp_to_bytes};
use crate::error::MeshError;
use crate::primitives::{
    chacha_decrypt, chacha_encrypt, ed25519_key_decodes, ed25519_verify, hkdf_expand, hmac_tag,
    random_array, x25519_public_key, xchacha_decrypt, xchacha_encrypt, AEAD_MAX, HKDF_MAX, TAG_LEN,
};

verus! {

use crate::b64::{b64std_text, b64url_text};
use crate::encoding::{
    b64_bytes,
    fp_bytes,
    law_base64_texts,
    law_fingerprint_is_hexadecimal,
};
use crate::text::{lowered, trimmed};
use crate::primitives::{
    chacha_open,
    chacha_seal,
    ed25519_accepts,
    ed25519_is_key,
    ed25519_public,
    ed25519_signature,
    hex_text,
    hkdf_sha256,
    hmac_sha256,
    is_plain_salt,
    neutral_point,
    tag_altered,
    x25519_public,
    xchacha_open,
    xchacha_seal,
};

/// The bytes of a label.
pub open spec fn label(text: &str) -> Seq<u8> {
    text.spec_bytes()
}

// ---------------------------------------------------------------- key derivation

/// What a derivation of `len` bytes gives.
pub open spec fn derived(salt: Option<Seq<u8>>, ikm: Seq<u8>, info: Seq<u8>, len: nat) -> Result<
    Seq<u8>,
    MeshError,
> {
    if len <= HKDF_MAX {
        Ok(hkdf_sha256(salt, ikm, info, len))
    } else {
        Err(MeshError::DerivedLength)
    }
}

/// Derives `len` bytes from `ikm` without a salt. Fewer bytes are the first ones of these, and an
/// empty salt or one of 32 zeros gives the same.
pub fn hkdf_derive(ikm: &[u8], info: &[u8], len: usize) -> (r: Result<Vec<u8>, MeshError>)
    requires
        len <= isize::MAX,
    ensures
        res_view(r) == derived(None, ikm@, info@, len as nat),
        r matches Ok(v) ==> v@.len() == len,
        r matches Ok(v) ==> forall|m: nat|
            m <= len ==> #[trigger] derived(None, ikm@, info@, m) == Ok::<Seq<u8>, MeshError>(
                v@.take(m as int),
            ),
        r matches Ok(v) ==> forall|salt: Option<Seq<u8>>|
            is_plain_salt(salt) ==> #[trigger] derived(salt, ikm@, info@, len as nat) == Ok::<
                Seq<u8>,
                MeshError,
            >(v@),
{
    match hkdf_expand(None, ikm, info, len) {
        Some(okm) => Ok(okm),
        None => Err(MeshError::DerivedLength),
    }
}

/// Derives `len` bytes from `ikm` with a salt. Fewer bytes are the first ones of these, and an
/// empty salt or one of 32 zeros gives what no salt does.
pub fn hkdf_derive_salt(salt: &[u8], ikm: &[u8], info: &[u8], len: usize) -> (r: Result<
    Vec<u8>,
    MeshError,
>)
    requires
        len <= isize::MAX,
    ensures
        res_view(r) == derived(Some(salt@), ikm@, info@, len as nat),
        r matches Ok(v) ==> v@.len() == len,
        r matches Ok(v) ==> forall|m: nat|
            m <= len ==> #[trigger] derived(Some(salt@), ikm@, info@, m) == Ok::<
                Seq<u8>,
                MeshError,
            >(v@.take(m as int)),
        r matches Ok(v) ==> is_plain_salt(Some(salt@)) ==> derived(
            None,
            ikm@,
            info@,
            len as nat,
        ) == Ok::<Seq<u8>, MeshError>(v@),
{
    match hkdf_expand(Some(salt), ikm, info, len) {
        Some(okm) => Ok(okm),
        None => Err(MeshError::DerivedLength),
    }
}

/// The 64 bytes that a root key and a Diffie-Hellman secret derive.
pub open spec fn root_okm(rk: Seq<u8>, dh_out: Seq<u8>) -> Seq<u8> {
    hkdf_sha256(Some(rk), dh_out, label("mesh-v3-rk"), 64)
}

/// The next root key.
pub open spec fn next_root(rk: Seq<u8>, dh_out: Seq<u8>) -> Seq<u8> {
    root_okm(rk, dh_out).subrange(0, 32)
}

/// The chain key that comes with the next root key.
pub open spec fn root_chain(rk: Seq<u8>, dh_out: Seq<u8>) -> Seq<u8> {
    root_okm(rk, dh_out).subrange(32, 64)
}

/// A derivation gives bytes up to 8160 of them, and none beyond.
pub proof fn law_derived_lengths(salt: Option<Seq<u8>>, ikm: Seq<u8>, info: Seq<u8>, len: nat)
    ensures
        len <= 8160 ==> derived(salt, ikm, info, len) == Ok::<Seq<u8>, MeshError>(
            hkdf_sha256(salt, ikm, info, len),
        ),
        len > 8160 ==> derived(salt, ikm, info, len) == Err::<Seq<u8>, MeshError>(
            MeshError::DerivedLength,
        ),
{
}

/// The next root key and the chain key that comes with it are the two halves of what the root key,
/// as the salt, derives from the secret.
pub proof fn law_root_step(rk: Seq<u8>, dh_out: Seq<u8>)
    requires
        hkdf_sha256(Some(rk), dh_out, "mesh-v3-rk".spec_bytes(), 64).len() == 64,
    ensures
        next_root(rk, dh_out) + root_chain(rk, dh_out) == hkdf_sha256(
            Some(rk),
            dh_out,
            "mesh-v3-rk".spec_bytes(),
            64,
        ),
        next_root(rk, dh_out).len() == 32,
        root_chain(rk, dh_out).len() == 32,
{
    assert(next_root(rk, dh_out) + root_chain(rk, dh_out) =~= root_okm(rk, dh_out));
}

/// One step of the root chain: the next root key and a new chain key.
pub fn kdf_rk(rk: &[u8], dh_out: &[u8]) -> (r: Result<(Vec<u8>, Vec<u8>), MeshError>)
    ensures
        r is Ok,
        r->Ok_0.0@ == next_root(rk@, dh_out@),
        r->Ok_0.1@ == root_chain(rk@, dh_out@),
        r->Ok_0.0@.len() == 32,
        r->Ok_0.1@.len() == 32,
{
    let okm = hkdf_derive_salt(rk, dh_out, "mesh-v3-rk".as_bytes(), 64)?;
    let root = slice_to_vec(slice_subrange(okm.as_slice(), 0, 32));
    let chain = slice_to_vec(slice_subrange(okm.as_slice(), 32, 64));
    Ok((root, chain))
}

/// The chain key that follows `ck`.
pub open spec fn next_chain(ck: Seq<u8>) -> Seq<u8> {
    hmac_sha256(ck, seq![1u8])
}

/// The message key that `ck` gives.
pub open spec fn message_key(ck: Seq<u8>) -> Seq<u8> {
    hmac_sha256(ck, seq![2u8])
}

/// The chain key `steps` steps after `ck`.
pub open spec fn chain_after(ck: Seq<u8>, steps: nat) -> Seq<u8>
    decreases steps,
{
    if steps == 0 {
        ck
    } else {
        next_chain(chain_after(ck, (steps - 1) as nat))
    }
}

/// A chain key gives the next one and a message key by the tags of the bytes one and two.
pub proof fn law_chain_step(ck: Seq<u8>)
    ensures
        chain_after(ck, 0) == ck,
        chain_after(ck, 1) == hmac_sha256(ck, seq![1u8]),
        next_chain(ck) == hmac_sha256(ck, seq![1u8]),
        message_key(ck) == hmac_sha256(ck, seq![2u8]),
{
    assert(chain_after(ck, 1) == next_chain(chain_after(ck, 0)));
}

/// Steps of a chain add up.
pub proof fn law_chain_steps_add_up(ck: Seq<u8>, a: nat, b: nat)
    ensures
        chain_after(ck, a + b) == chain_after(chain_after(ck, a), b),
    decreases b,
{
    if b > 0 {
        law_chain_steps_add_up(ck, a, (b - 1) as nat);
        assert(chain_after(ck, a + b) == next_chain(chain_after(ck, (a + b - 1) as nat)));
    }
}

/// One step of a message chain: the next chain key and the key of one message.
pub fn kdf_ck(ck: &[u8]) -> (r: Result<(Vec<u8>, Vec<u8>), MeshError>)
    ensures
        r is Ok,
        r->Ok_0.0@ == next_chain(ck@),
        r->Ok_0.1@ == message_key(ck@),
        r->Ok_0.0@.len() == 32,
        r->Ok_0.1@.len() == 32,
{
    let one: [u8; 1] = [1u8];
    let two: [u8; 1] = [2u8];
    assert(one@ =~= seq![1u8]);
    assert(two@ =~= seq![2u8]);
    let next = hmac_tag(ck, one.as_slice());
    let key = hmac_tag(ck, two.as_slice());
    match (next, key) {
        (Some(n), Some(k)) => Ok((n, k)),
        _ => Err(MeshError::DerivedLength),
    }
}

// ---------------------------------------------------------------- encryption

/// A plaintext of this length can be encrypted.
pub open spec fn aead_fits(len: nat) -> bool {
    &&& len <= AEAD_MAX
    &&& len + TAG_LEN <= isize::MAX
}

/// What XChaCha20-Poly1305 encryption gives.
pub open spec fn xsealed(key: Seq<u8>, nonce: Seq<u8>, pt: Seq<u8>, aad: Seq<u8>) -> Result<
    Seq<u8>,
    MeshError,
> {
    if aead_fits(pt.len()) {
        Ok(xchacha_seal(key, nonce, pt, aad))
    } else {
        Err(MeshError::Encrypt)
    }
}

/// What XChaCha20-Poly1305 decryption gives.
pub open spec fn xopened(key: Seq<u8>, nonce: Seq<u8>, ct: Seq<u8>, aad: Seq<u8>) -> Option<
    Seq<u8>,
> {
    if ct.len() <= AEAD_MAX + TAG_LEN {
        xchacha_open(key, nonce, ct, aad)
    } else {
        None
    }
}

/// What ChaCha20-Poly1305 encryption gives.
pub open spec fn csealed(key: Seq<u8>, nonce: Seq<u8>, pt: Seq<u8>, aad: Seq<u8>) -> Result<
    Seq<u8>,
    MeshError,
> {
    if aead_fits(pt.len()) {
        Ok(chacha_seal(key, nonce, pt, aad))
    } else {
        Err(MeshError::Encrypt)
    }
}

/// What ChaCha20-Poly1305 decryption gives.
pub open spec fn copened(key: Seq<u8>, nonce: Seq<u8>, ct: Seq<u8>, aad: Seq<u8>) -> Option<
    Seq<u8>,
> {
    if ct.len() <= AEAD_MAX + TAG_LEN {
        chacha_open(key, nonce, ct, aad)
    } else {
        None
    }
}

/// Encryption is refused only for what one key stream does not cover, and is the cipher's
/// otherwise; and nothing opens that the cipher does not open.
pub proof fn law_encryption_is_the_cipher(
    key: Seq<u8>,
    nonce: Seq<u8>,
    pt: Seq<u8>,
    ct: Seq<u8>,
    aad: Seq<u8>,
)
    ensures
        pt.len() <= 0x40_0000_0000 - 128 && pt.len() + 16 <= isize::MAX ==> {
            &&& xsealed(key, nonce, pt, aad) == Ok::<Seq<u8>, MeshError>(
                xchacha_seal(key, nonce, pt, aad),
            )
            &&& csealed(key, nonce, pt, aad) == Ok::<Seq<u8>, MeshError>(
                chacha_seal(key, nonce, pt, aad),
            )
        },
        pt.len() > 0x40_0000_0000 - 128 || pt.len() + 16 > isize::MAX ==> {
            &&& xsealed(key, nonce, pt, aad) == Err::<Seq<u8>, MeshError>(MeshError::Encrypt)
            &&& csealed(key, nonce, pt, aad) == Err::<Seq<u8>, MeshError>(MeshError::Encrypt)
        },
        ct.len() <= 0x40_0000_0000 - 112 ==> {
            &&& xopened(key, nonce, ct, aad) == xchacha_open(key, nonce, ct, aad)
            &&& copened(key, nonce, ct, aad) == chacha_open(key, nonce, ct, aad)
        },
        ct.len() > 0x40_0000_0000 - 112 ==> {
            &&& xopened(key, nonce, ct, aad) is None
            &&& copened(key, nonce, ct, aad) is None
        },
{
}

fn fits(len: usize) -> (r: bool)
    ensures
        r == aead_fits(len as nat),
{
    len as u64 <= AEAD_MAX && len <= isize::MAX as usize - TAG_LEN
}

/// Encrypts with a 24-byte nonce; `xdec` under the same key, nonce and associated data gives the
/// plaintext back, and refuses the ciphertext with another tag.
pub fn xenc(key: &[u8; 32], nonce: &[u8; 24], pt: &[u8], aad: &[u8]) -> (r: Result<
    Vec<u8>,
    MeshError,
>)
    ensures
        res_view(r) == xsealed(key@, nonce@, pt@, aad@),
        r matches Ok(ct) ==> {
            &&& ct@.len() == pt@.len() + TAG_LEN
            &&& xopened(key@, nonce@, ct@, aad@) == Some(pt@)
            &&& forall|other: Seq<u8>|
                tag_altered(ct@, other) ==> #[trigger] xopened(
                    key@,
                    nonce@,
                    other,
                    aad@,
                ) is None
        },
{
    if !fits(pt.len()) {
        return Err(MeshError::Encrypt);
    }
    match xchacha_encrypt(key, nonce, pt, aad) {
        Some(ct) => Ok(ct),
        None => Err(MeshError::Encrypt),
    }
}

/// Decrypts with a 24-byte nonce.
pub fn xdec(key: &[u8; 32], nonce: &[u8; 24], ct: &[u8], aad: &[u8]) -> (r: Result<
    Vec<u8>,
    MeshError,
>)
    ensures
        res_view(r) == (match xopened(key@, nonce@, ct@, aad@) {
            Some(pt) => Ok::<Seq<u8>, MeshError>(pt),
            None => Err(MeshError::Decrypt),
        }),
        r matches Ok(pt) ==> pt@.len() + TAG_LEN == ct@.len(),
{
    if ct.len() as u64 > AEAD_MAX + TAG_LEN as u64 {
        return Err(MeshError::Decrypt);
    }
    match xchacha_decrypt(key, nonce, ct, aad) {
        Some(pt) => Ok(pt),
        None => Err(MeshError::Decrypt),
    }
}

/// Encrypts with a 12-byte nonce; `cdec` under the same key, nonce and associated data gives the
/// plaintext back, and refuses the ciphertext with another tag.
pub fn cenc(key: &[u8; 32], nonce: &[u8; 12], pt: &[u8], aad: &[u8]) -> (r: Result<
    Vec<u8>,
    MeshError,
>)
    ensures
        res_view(r) == csealed(key@, nonce@, pt@, aad@),
        r matches Ok(ct) ==> {
            &&& ct@.len() == pt@.len() + TAG_LEN
            &&& copened(key@, nonce@, ct@, aad@) == Some(pt@)
            &&& forall|other: Seq<u8>|
                tag_altered(ct@, other) ==> #[trigger] copened(
                    key@,
                    nonce@,
                    other,
                    aad@,
                ) is None
        },
{
    if !fits(pt.len()) {
        return Err(MeshError::Encrypt);
    }
    match chacha_encrypt(key, nonce, pt, aad) {
        Some(ct) => Ok(ct),
        None => Err(MeshError::Encrypt),
    }
}

/// Decrypts with a 12-byte nonce.
pub fn cdec(key: &[u8; 32], nonce: &[u8; 12], ct: &[u8], aad: &[u8]) -> (r: Result<
    Vec<u8>,
    MeshError,
>)
    ensures
        res_view(r) == (match copened(key@, nonce@, ct@, aad@) {
            Some(pt) => Ok::<Seq<u8>, MeshError>(pt),
            None => Err(MeshError::Decrypt),
        }),
        r matches Ok(pt) ==> pt@.len() + TAG_LEN == ct@.len(),
{
    if ct.len() as u64 > AEAD_MAX + TAG_LEN as u64 {
        return Err(MeshError::Decrypt);
    }
    match chacha_decrypt(key, nonce, ct, aad) {
        Some(pt) => Ok(pt),
        None => Err(MeshError::Decrypt),
    }
}

// ---------------------------------------------------------------- keys and signatures

/// Draws a fresh ratchet key pair: the private key, then the public key that belongs to it.
pub fn generate_dh_keypair() -> (r: Result<([u8; 32], [u8; 32]), MeshError>)
    ensures
        r matches Ok(pair) ==> pair.1@ == x25519_public(pair.0@),
        r matches Err(e) ==> e == MeshError::NoRandomness,
{
    match random_array::<32>() {
        Some(private) => {
            let public = x25519_public_key(&private);
            Ok((private, public))
        },
        None => Err(MeshError::NoRandomness),
    }
}

/// The signature of `msg` under a seed is accepted under the key of the seed, unless its first half
/// is the neutral point.
pub open spec fn signature_holds(ed_seed: Seq<u8>, msg: Seq<u8>) -> bool {
    let sig = ed25519_signature(ed_seed, msg);
    sig.take(32) != neutral_point() ==> ed25519_accepts(ed25519_public(ed_seed), msg, sig)
}

/// Whether `sig_b64` is the peer's signature of `msg`.
pub open spec fn signature_check(fp: Seq<char>, msg: Seq<u8>, sig_b64: Seq<char>) -> Result<
    bool,
    MeshError,
> {
    match fp_bytes(fp) {
        Err(e) => Err(e),
        Ok(key) => if !ed25519_is_key(key) {
            Err(MeshError::BadVerifyingKey)
        } else {
            match b64_bytes(sig_b64) {
                None => Err(MeshError::BadBase64),
                Some(sig) => if sig.len() != 64 {
                    Err(MeshError::SignatureLength)
                } else {
                    Ok(ed25519_accepts(key, msg, sig))
                },
            }
        },
    }
}

/// A signature is checked against the key whose hexadecimal text the fingerprint is: where that is
/// a key and the signature has 64 bytes, in either alphabet, the answer is that of strict
/// verification.
pub proof fn law_signatures_are_checked(
    fp: Seq<char>,
    key: Seq<u8>,
    msg: Seq<u8>,
    sig_b64: Seq<char>,
    sig: Seq<u8>,
)
    requires
        key.len() == 32,
        lowered(fp) == hex_text(key),
        trimmed(sig_b64) == b64url_text(sig) || trimmed(sig_b64) == b64std_text(sig),
    ensures
        ed25519_is_key(key) && sig.len() == 64 ==> signature_check(fp, msg, sig_b64) == Ok::<
            bool,
            MeshError,
        >(ed25519_accepts(key, msg, sig)),
        !ed25519_is_key(key) ==> signature_check(fp, msg, sig_b64) == Err::<bool, MeshError>(
            MeshError::BadVerifyingKey,
        ),
        ed25519_is_key(key) && sig.len() != 64 ==> signature_check(fp, msg, sig_b64) == Err::<
            bool,
            MeshError,
        >(MeshError::SignatureLength),
{
    law_fingerprint_is_hexadecimal(fp, key);
    law_base64_texts(sig_b64, sig);
}

/// What cannot be checked is no signature: a fingerprint that is none, or text that is no base64.
pub proof fn law_signatures_that_are_none(fp: Seq<char>, msg: Seq<u8>, sig_b64: Seq<char>)
    ensures
        signature_check(fp, msg, sig_b64) == Ok::<bool, MeshError>(true) ==> {
            &&& fp_bytes(fp) is Ok
            &&& b64_bytes(sig_b64) is Some
            &&& ed25519_accepts(fp_bytes(fp)->Ok_0, msg, b64_bytes(sig_b64)->0)
        },
        fp_bytes(fp) matches Err(e) ==> signature_check(fp, msg, sig_b64) == Err::<bool, MeshError>(
            e,
        ),
        fp_bytes(fp) is Ok && ed25519_is_key(fp_bytes(fp)->Ok_0) && b64_bytes(sig_b64) is None
            ==> signature_check(fp, msg, sig_b64) == Err::<bool, MeshError>(MeshError::BadBase64),
{
}

/// Checks a signature against the key that a fingerprint stands for.
pub fn ed_verify(fp_hex: &str, msg: &[u8], sig_b64: &str) -> (r: Result<bool, MeshError>)
    ensures
        r == signature_check(fp_hex@, msg@, sig_b64@),
{
    let key = fp_to_bytes(fp_hex)?;
    if !ed25519_key_decodes(&key) {
        return Err(MeshError::BadVerifyingKey);
    }
    let sig = b64_decode(sig_b64)?;
    if sig.len() != 64 {
        return Err(MeshError::SignatureLength);
    }
    let signature = read_array64(sig.as_slice(), 0);
    assert(signature@ =~= sig@);
    Ok(ed25519_verify(&key, msg, &signature))
}

} // verus!
