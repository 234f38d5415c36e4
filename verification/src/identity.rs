//! Who the client is: the signing key, the identity key and the fingerprint.
use vstd::prelude::*;
use vstd::string::*;

use crate::bytes::{push_bytes, read_array32, KEY_LEN};
use crate::encoding::{b64_encode, fp_from_bytes};
use crate::error::MeshError;
use crate::primitives::{ed25519_public_key, ed25519_sign, random_array, x25519_public_key};
use crate::text::{ascii_lower, trim};

verus! {

use vstd::utf8::encode_utf8;
use crate::bytes::{field, res_view};
use crate::b64::b64url_text;
use crate::encoding::{b64_bytes, fp_bytes, law_b64_reads_back, law_fingerprint_round_trip};
use crate::kdf::signature_holds;
use crate::primitives::{
    ed25519_is_key,
    ed25519_public,
    ed25519_signature,
    hex_digit,
    hex_text,
    x25519_public,
};
use crate::text::{
    is_space,
    lemma_trimmed_push,
    lemma_trimmed_solid,
    lower_char,
    lowered,
    trimmed,
};

/// The bytes of the secret file that are used.
pub const SECRET_LEN: usize = 64;

/// A loaded identity.
#[derive(Debug, Clone)]
pub struct Identity {
    /// The seed of the signing key.
    pub ed_seed: [u8; 32],
    /// The private identity key.
    pub x_priv: [u8; 32],
    /// The public identity key.
    pub x_pub: [u8; 32],
    /// The fingerprint.
    pub fp: String,
}

/// A loaded identity.
#[verifier::ext_equal]
pub ghost struct IdentityView {
    pub ed_seed: Seq<u8>,
    pub x_priv: Seq<u8>,
    pub x_pub: Seq<u8>,
    pub fp: Seq<char>,
}

impl View for Identity {
    type V = IdentityView;

    open spec fn view(&self) -> IdentityView {
        IdentityView {
            ed_seed: self.ed_seed@,
            x_priv: self.x_priv@,
            x_pub: self.x_pub@,
            fp: self.fp@,
        }
    }
}

/// The fingerprint that the text of its file holds: trimmed and in lower case.
pub fn fingerprint_of(text: &str) -> (r: String)
    ensures
        r@ == lowered(trimmed(text@)),
{
    ascii_lower(trim(text))
}

/// The fingerprint of a peer as a message is addressed to it: in lower case, and 64 bytes long.
pub fn peer_fingerprint(to: &str) -> (r: Result<String, MeshError>)
    ensures
        res_view(r) == (if encode_utf8(lowered(to@)).len() == 64 {
            Ok::<Seq<char>, MeshError>(lowered(to@))
        } else {
            Err(MeshError::FingerprintLength)
        }),
{
    let fp = ascii_lower(to);
    if fp.as_str().as_bytes().len() != 64 {
        return Err(MeshError::FingerprintLength);
    }
    Ok(fp)
}

/// The identity that the secret file and the fingerprint file hold.
pub open spec fn identity_in(secret: Seq<u8>, fp_text: Seq<char>) -> Result<
    IdentityView,
    MeshError,
> {
    if secret.len() < SECRET_LEN {
        Err(MeshError::IdentityLength)
    } else {
        Ok(
            IdentityView {
                ed_seed: field(secret, 0, 32),
                x_priv: field(secret, 32, 32),
                x_pub: x25519_public(field(secret, 32, 32)),
                fp: lowered(trimmed(fp_text)),
            },
        )
    }
}

/// An identity is read from a secret file of 64 bytes or more: the seed comes first, then the
/// private identity key; the fingerprint is taken in lower case.
pub proof fn law_identity_is_read(secret: Seq<u8>, fp_text: Seq<char>)
    ensures
        secret.len() < 64 ==> identity_in(secret, fp_text) == Err::<IdentityView, MeshError>(
            MeshError::IdentityLength,
        ),
        secret.len() >= 64 ==> (identity_in(secret, fp_text) matches Ok(me) && {
            &&& me.ed_seed == secret.take(32)
            &&& me.x_priv == secret.subrange(32, 64)
            &&& me.x_pub == x25519_public(me.x_priv)
            &&& me.fp == lowered(trimmed(fp_text))
        }),
{
    if secret.len() >= 64 {
        assert(field(secret, 0, 32) =~= secret.take(32));
        assert(field(secret, 32, 32) =~= secret.subrange(32, 64));
    }
}

/// Reads an identity from the contents of the secret file and the text of the fingerprint file.
pub fn load_identity(secret: &[u8], fp_text: &str) -> (r: Result<Identity, MeshError>)
    ensures
        res_view(r) == identity_in(secret@, fp_text@),
{
    if secret.len() < SECRET_LEN {
        return Err(MeshError::IdentityLength);
    }
    let x_priv = read_array32(secret, 32);
    Ok(
        Identity {
            ed_seed: read_array32(secret, 0),
            x_priv,
            x_pub: x25519_public_key(&x_priv),
            fp: fingerprint_of(fp_text),
        },
    )
}

/// The files of a new identity.
#[derive(Debug, Clone)]
pub struct IdentityFiles {
    /// The secret file: the seed of the signing key, then the private identity key.
    pub secret: Vec<u8>,
    /// The fingerprint.
    pub fp: String,
    /// The fingerprint file.
    pub fp_line: String,
    /// The file of the public identity key.
    pub x_id_pub: String,
    /// The file of its signature.
    pub x_id_sig: String,
}

/// The files of a new identity.
#[verifier::ext_equal]
pub ghost struct IdentityFilesView {
    pub secret: Seq<u8>,
    pub fp: Seq<char>,
    pub fp_line: Seq<char>,
    pub x_id_pub: Seq<char>,
    pub x_id_sig: Seq<char>,
}

impl View for IdentityFiles {
    type V = IdentityFilesView;

    open spec fn view(&self) -> IdentityFilesView {
        IdentityFilesView {
            secret: self.secret@,
            fp: self.fp@,
            fp_line: self.fp_line@,
            x_id_pub: self.x_id_pub@,
            x_id_sig: self.x_id_sig@,
        }
    }
}

/// The files of the identity with the given seed and private key: the fingerprint is the verifying
/// key in hexadecimal, and the identity key is signed.
pub open spec fn identity_files(ed_seed: Seq<u8>, x_priv: Seq<u8>) -> IdentityFilesView {
    let fp = hex_text(ed25519_public(ed_seed));
    IdentityFilesView {
        secret: ed_seed + x_priv,
        fp,
        fp_line: fp + "\n"@,
        x_id_pub: b64url_text(x25519_public(x_priv)),
        x_id_sig: b64url_text(ed25519_signature(ed_seed, x25519_public(x_priv))),
    }
}

/// The files of an identity hold its keys: the fingerprint is that of the verifying key, and the
/// signature is that of the identity key.
pub proof fn law_identity_files(ed_seed: Seq<u8>, x_priv: Seq<u8>)
    requires
        ed_seed.len() == 32,
        x_priv.len() == 32,
        ed25519_public(ed_seed).len() == 32,
    ensures
        ({
            let files = identity_files(ed_seed, x_priv);
            &&& files.secret.len() == 64
            &&& files.secret.take(32) == ed_seed
            &&& files.secret.skip(32) == x_priv
            &&& fp_bytes(files.fp) == Ok::<Seq<u8>, MeshError>(ed25519_public(ed_seed))
            &&& fp_bytes(trimmed(files.fp_line)) == fp_bytes(files.fp)
            &&& b64_bytes(files.x_id_pub) == Some(x25519_public(x_priv))
            &&& b64_bytes(files.x_id_sig) == Some(
                ed25519_signature(ed_seed, x25519_public(x_priv)),
            )
        }),
{
    broadcast use law_b64_reads_back;

    let files = identity_files(ed_seed, x_priv);
    assert(files.secret.take(32) =~= ed_seed);
    assert(files.secret.skip(32) =~= x_priv);
    law_fingerprint_round_trip(ed25519_public(ed_seed));
    lemma_hex_solid(ed25519_public(ed_seed));
    reveal_strlit("\n");
    assert(files.fp_line =~= files.fp.push('\n'));
    lemma_trimmed_push(files.fp, '\n');
    lemma_trimmed_solid(files.fp);
}

/// Makes the files of an identity. Loading them gives the identity back; the fingerprint stands for
/// a verifying key, and the signature of the identity key holds under it.
pub fn make_identity(ed_seed: &[u8; 32], x_priv: &[u8; 32]) -> (r: IdentityFiles)
    ensures
        r@ == identity_files(ed_seed@, x_priv@),
        identity_in(r@.secret, r@.fp_line) == Ok::<IdentityView, MeshError>(
            IdentityView {
                ed_seed: ed_seed@,
                x_priv: x_priv@,
                x_pub: x25519_public(x_priv@),
                fp: hex_text(ed25519_public(ed_seed@)),
            },
        ),
        ed25519_is_key(ed25519_public(ed_seed@)),
        signature_holds(ed_seed@, x25519_public(x_priv@)),
{
    let fp = fp_from_bytes(&ed25519_public_key(ed_seed));
    let x_pub = x25519_public_key(x_priv);
    let x_sig = ed25519_sign(ed_seed, x_pub.as_slice());
    let mut secret: Vec<u8> = Vec::new();
    push_bytes(&mut secret, ed_seed.as_slice());
    push_bytes(&mut secret, x_priv.as_slice());
    assert(secret@ =~= ed_seed@ + x_priv@);
    let mut fp_line = fp.clone();
    fp_line.append("\n");
    proof {
        law_identity_round_trip(ed_seed@, x_priv@);
    }
    IdentityFiles {
        secret,
        fp,
        fp_line,
        x_id_pub: b64_encode(x_pub.as_slice()),
        x_id_sig: b64_encode(x_sig.as_slice()),
    }
}

/// Hexadecimal text holds no white space and no upper case.
pub proof fn lemma_hex_solid(bytes: Seq<u8>)
    ensures
        forall|i: int|
            0 <= i < hex_text(bytes).len() ==> !is_space(#[trigger] hex_text(bytes)[i])
                && lower_char(hex_text(bytes)[i]) == hex_text(bytes)[i],
        lowered(hex_text(bytes)) == hex_text(bytes),
{
    let t = hex_text(bytes);
    assert forall|i: int| 0 <= i < t.len() implies !is_space(#[trigger] t[i]) && lower_char(t[i])
        == t[i] by {
        let d: nat = if i % 2 == 0 {
            bytes[i / 2] as nat / 16
        } else {
            bytes[i / 2] as nat % 16
        };
        assert(t[i] == hex_digit(d));
        assert(d < 16);
    }
    assert(lowered(t) =~= t);
}

/// Loading the files of an identity gives the seed, the private key and the fingerprint back.
pub proof fn law_identity_round_trip(ed_seed: Seq<u8>, x_priv: Seq<u8>)
    requires
        ed_seed.len() == KEY_LEN,
        x_priv.len() == KEY_LEN,
    ensures
        identity_in(
            identity_files(ed_seed, x_priv).secret,
            identity_files(ed_seed, x_priv).fp_line,
        ) == Ok::<IdentityView, MeshError>(
            IdentityView {
                ed_seed,
                x_priv,
                x_pub: x25519_public(x_priv),
                fp: hex_text(ed25519_public(ed_seed)),
            },
        ),
{
    let files = identity_files(ed_seed, x_priv);
    let t = hex_text(ed25519_public(ed_seed));
    assert(field(files.secret, 0, 32) =~= ed_seed);
    assert(field(files.secret, 32, 32) =~= x_priv);
    lemma_hex_solid(ed25519_public(ed_seed));
    reveal_strlit("\n");
    assert(files.fp_line =~= t.push('\n'));
    lemma_trimmed_push(t, '\n');
    lemma_trimmed_solid(t);
}

/// Makes a new identity from a seed and a private key that are drawn here.
pub fn generate_identity() -> (r: Result<IdentityFiles, MeshError>)
    ensures
        r matches Ok(files) ==> exists|ed_seed: Seq<u8>, x_priv: Seq<u8>|
            {
                &&& ed_seed.len() == KEY_LEN
                &&& x_priv.len() == KEY_LEN
                &&& files@ == #[trigger] identity_files(ed_seed, x_priv)
                &&& ed25519_is_key(ed25519_public(ed_seed))
                &&& signature_holds(ed_seed, x25519_public(x_priv))
            },
        r matches Err(e) ==> e == MeshError::NoRandomness,
{
    match (random_array::<32>(), random_array::<32>()) {
        (Some(ed_seed), Some(x_priv)) => Ok(make_identity(&ed_seed, &x_priv)),
        _ => Err(MeshError::NoRandomness),
    }
}

} // verus!
