//! The key agreement that opens a conversation.
use vstd::prelude::*;
use vstd::string::*;

use crate::bytes::{exact32, opt_view, push_be32, push_bytes, res_view, KEY_LEN};
use crate::encoding::{b64_decode, b64_decode_key, fp_to_bytes};
use crate::error::MeshError;
use crate::json::{parses, read_number, read_text};
use crate::kdf::{ed_verify, hkdf_derive};
use crate::primitives::{random_array, wipe, wipe_key, x25519_public_key, x25519_shared};
use crate::text::ascii_lower;

verus! {

use crate::bytes::be32;
use crate::b64::b64url_text;
use crate::encoding::{
    b64_bytes,
    decoded,
    decoded_key,
    fp_bytes,
    law_b64_reads_back,
    law_fingerprint_in_either_case,
};
use crate::json::{is_json, json_number, json_text};
use crate::kdf::{label, signature_check};
use crate::primitives::{
    ed25519_accepts,
    ed25519_is_key,
    hkdf_sha256,
    x25519,
    x25519_public,
};
use crate::text::lowered;

/// The number that stands for "no one-time prekey".
pub const OPK_NONE: u32 = 0xffff_ffff;

// ---------------------------------------------------------------- bundles

/// A peer's prekey bundle as the server hands it out. Any of it may be missing.
#[derive(Debug, Clone)]
pub struct Bundle {
    /// The identity key.
    pub x_id_pub: Option<String>,
    /// The signature of the identity key.
    pub x_id_sig: Option<String>,
    /// The signed prekey.
    pub spk_pub: Option<String>,
    /// The signature of the signed prekey.
    pub spk_sig: Option<String>,
    /// The number of the signed prekey.
    pub spk_id: Option<u64>,
    /// The one-time prekey.
    pub opk_pub: Option<String>,
    /// The number of the one-time prekey.
    pub opk_id: Option<u64>,
}

/// What a bundle holds.
#[verifier::ext_equal]
pub ghost struct BundleView {
    pub x_id_pub: Option<Seq<char>>,
    pub x_id_sig: Option<Seq<char>>,
    pub spk_pub: Option<Seq<char>>,
    pub spk_sig: Option<Seq<char>>,
    pub spk_id: Option<u64>,
    pub opk_pub: Option<Seq<char>>,
    pub opk_id: Option<u64>,
}

impl View for Bundle {
    type V = BundleView;

    open spec fn view(&self) -> BundleView {
        BundleView {
            x_id_pub: opt_view(self.x_id_pub),
            x_id_sig: opt_view(self.x_id_sig),
            spk_pub: opt_view(self.spk_pub),
            spk_sig: opt_view(self.spk_sig),
            spk_id: self.spk_id,
            opk_pub: opt_view(self.opk_pub),
            opk_id: self.opk_id,
        }
    }
}

/// The bundle that a JSON document holds.
pub open spec fn bundle_in(doc: Seq<u8>) -> BundleView {
    BundleView {
        x_id_pub: json_text(doc, "x_id_pub"@),
        x_id_sig: json_text(doc, "x_id_sig"@),
        spk_pub: json_text(doc, "spk_pub"@),
        spk_sig: json_text(doc, "spk_sig"@),
        spk_id: json_number(doc, "spk_id"@),
        opk_pub: json_text(doc, "opk_pub"@),
        opk_id: json_number(doc, "opk_id"@),
    }
}

/// Reads a bundle from the server's reply.
pub fn parse_bundle(reply: &[u8]) -> (r: Result<Bundle, MeshError>)
    ensures
        res_view(r) == (if is_json(reply@) {
            Ok::<BundleView, MeshError>(bundle_in(reply@))
        } else {
            Err(MeshError::BadReply)
        }),
{
    if !parses(reply) {
        return Err(MeshError::BadReply);
    }
    Ok(
        Bundle {
            x_id_pub: read_text(reply, "x_id_pub"),
            x_id_sig: read_text(reply, "x_id_sig"),
            spk_pub: read_text(reply, "spk_pub"),
            spk_sig: read_text(reply, "spk_sig"),
            spk_id: read_number(reply, "spk_id"),
            opk_pub: read_text(reply, "opk_pub"),
            opk_id: read_number(reply, "opk_id"),
        },
    )
}

/// The keys of a peer, checked against their fingerprint.
#[derive(Debug, Clone, Copy)]
pub struct PeerKeys {
    /// The identity key.
    pub x_id: [u8; 32],
    /// The signed prekey.
    pub spk: [u8; 32],
    /// The one-time prekey.
    pub opk: Option<[u8; 32]>,
    /// The number of the signed prekey.
    pub spk_id: u32,
    /// The number of the one-time prekey.
    pub opk_id: u32,
}

/// The keys of a peer.
#[verifier::ext_equal]
pub ghost struct PeerKeysView {
    pub x_id: Seq<u8>,
    pub spk: Seq<u8>,
    pub opk: Option<Seq<u8>>,
    pub spk_id: u32,
    pub opk_id: u32,
}

impl View for PeerKeys {
    type V = PeerKeysView;

    open spec fn view(&self) -> PeerKeysView {
        PeerKeysView {
            x_id: self.x_id@,
            spk: self.spk@,
            opk: opt_view(self.opk),
            spk_id: self.spk_id,
            opk_id: self.opk_id,
        }
    }
}

/// The low 32 bits of a number.
pub open spec fn low32(x: u64) -> u32 {
    (x % 0x1_0000_0000) as u32
}

/// A key that comes with the peer's signature, and what is wrong where it does not.
pub open spec fn signed_key(
    fp: Seq<char>,
    key: Option<Seq<char>>,
    signature: Option<Seq<char>>,
    no_key: MeshError,
    no_signature: MeshError,
    not_signed: MeshError,
) -> Result<Seq<u8>, MeshError> {
    match (key, signature) {
        (None, _) => Err(no_key),
        (_, None) => Err(no_signature),
        (Some(k), Some(s)) => match decoded(k) {
            Err(e) => Err(e),
            Ok(bytes) => match signature_check(fp, bytes, s) {
                Err(e) => Err(e),
                Ok(good) => if good {
                    Ok(bytes)
                } else {
                    Err(not_signed)
                },
            },
        },
    }
}

/// The identity key of a bundle, signed by the peer.
pub open spec fn signed_identity(peer_fp: Seq<char>, b: BundleView) -> Result<Seq<u8>, MeshError> {
    signed_key(
        lowered(peer_fp),
        b.x_id_pub,
        b.x_id_sig,
        MeshError::MissingIdentityKey,
        MeshError::MissingIdentitySignature,
        MeshError::BadIdentitySignature,
    )
}

/// The signed prekey of a bundle, signed by the peer.
pub open spec fn signed_prekey(peer_fp: Seq<char>, b: BundleView) -> Result<Seq<u8>, MeshError> {
    signed_key(
        lowered(peer_fp),
        b.spk_pub,
        b.spk_sig,
        MeshError::MissingSignedPrekey,
        MeshError::MissingPrekeySignature,
        MeshError::BadPrekeySignature,
    )
}

/// The one-time prekey of a bundle, if it has one.
pub open spec fn one_time_prekey(b: BundleView) -> Result<Option<Seq<u8>>, MeshError> {
    match b.opk_pub {
        None => Ok(None),
        Some(text) => match decoded(text) {
            Ok(key) => if key.len() == KEY_LEN {
                Ok(Some(key))
            } else {
                Err(MeshError::BundleKeyLength)
            },
            Err(_) => Err(MeshError::BundleKeyLength),
        },
    }
}

/// The keys in a bundle, once the peer's signatures on them are checked.
pub open spec fn checked_keys(peer_fp: Seq<char>, b: BundleView) -> Result<
    PeerKeysView,
    MeshError,
> {
    match signed_identity(peer_fp, b) {
        Err(e) => Err(e),
        Ok(x_id) => match signed_prekey(peer_fp, b) {
            Err(e) => Err(e),
            Ok(spk) => if x_id.len() != KEY_LEN || spk.len() != KEY_LEN {
                Err(MeshError::BundleKeyLength)
            } else {
                match one_time_prekey(b) {
                    Err(e) => Err(e),
                    Ok(opk) => Ok(
                        PeerKeysView {
                            x_id,
                            spk,
                            opk,
                            spk_id: match b.spk_id {
                                Some(id) => low32(id),
                                None => 0,
                            },
                            opk_id: match b.opk_id {
                                Some(id) => low32(id),
                                None => OPK_NONE,
                            },
                        },
                    ),
                }
            },
        },
    }
}

/// What a peer's fingerprint and a text must be for the text to be their signature of `msg`.
pub open spec fn signed_by(fp: Seq<char>, msg: Seq<u8>, text: Seq<char>) -> bool {
    let key = fp_bytes(fp);
    let sig = b64_bytes(text);
    &&& key is Ok
    &&& ed25519_is_key(key->Ok_0)
    &&& sig is Some
    &&& sig->0.len() == 64
    &&& ed25519_accepts(key->Ok_0, msg, sig->0)
}

/// Only signed keys are taken out of a bundle: the identity key and the signed prekey are the ones
/// that the bundle holds, in full length, and the peer has signed both. The one-time prekey and the
/// numbers are those of the bundle; without a number there is no signed prekey but number zero, and
/// no one-time prekey.
pub proof fn law_only_signed_keys_are_taken(peer_fp: Seq<char>, b: BundleView, keys: PeerKeysView)
    requires
        checked_keys(peer_fp, b) == Ok::<PeerKeysView, MeshError>(keys),
    ensures
        b.x_id_pub matches Some(text) && b64_bytes(text) == Some(keys.x_id),
        b.spk_pub matches Some(text) && b64_bytes(text) == Some(keys.spk),
        keys.x_id.len() == 32,
        keys.spk.len() == 32,
        b.x_id_sig matches Some(sig) && signed_by(lowered(peer_fp), keys.x_id, sig),
        b.spk_sig matches Some(sig) && signed_by(lowered(peer_fp), keys.spk, sig),
        b.opk_pub is None <==> keys.opk is None,
        b.opk_pub matches Some(text) ==> b64_bytes(text) == keys.opk && keys.opk->0.len() == 32,
        b.spk_id matches Some(id) ==> keys.spk_id == id % 0x1_0000_0000,
        b.spk_id is None ==> keys.spk_id == 0,
        b.opk_id matches Some(id) ==> keys.opk_id == id % 0x1_0000_0000,
        b.opk_id is None ==> keys.opk_id == 0xffff_ffff,
{
}

/// Signed keys are taken out of a bundle: where the peer has signed the identity key and the signed
/// prekey and every key has its length, nothing is refused.
pub proof fn law_signed_keys_are_taken(
    peer_fp: Seq<char>,
    b: BundleView,
    x_id: Seq<u8>,
    spk: Seq<u8>,
)
    requires
        b.x_id_pub matches Some(text) && b64_bytes(text) == Some(x_id),
        b.spk_pub matches Some(text) && b64_bytes(text) == Some(spk),
        x_id.len() == 32,
        spk.len() == 32,
        b.x_id_sig matches Some(sig) && signed_by(lowered(peer_fp), x_id, sig),
        b.spk_sig matches Some(sig) && signed_by(lowered(peer_fp), spk, sig),
        b.opk_pub matches Some(text) ==> b64_bytes(text) is Some && b64_bytes(text)->0.len() == 32,
    ensures
        checked_keys(peer_fp, b) is Ok,
{
}

/// What a bundle lacks is told: a missing key or signature, or one that the peer did not sign. The
/// identity key is looked at before the signed prekey.
pub proof fn law_refused_bundles(peer_fp: Seq<char>, b: BundleView)
    ensures
        b.x_id_pub is None ==> checked_keys(peer_fp, b) == Err::<PeerKeysView, MeshError>(
            MeshError::MissingIdentityKey,
        ),
        b.x_id_pub is Some && b.x_id_sig is None ==> checked_keys(peer_fp, b) == Err::<
            PeerKeysView,
            MeshError,
        >(MeshError::MissingIdentitySignature),
        signed_identity(peer_fp, b) is Ok && b.spk_pub is None ==> checked_keys(peer_fp, b)
            == Err::<PeerKeysView, MeshError>(MeshError::MissingSignedPrekey),
        signed_identity(peer_fp, b) is Ok && b.spk_pub is Some && b.spk_sig is None
            ==> checked_keys(peer_fp, b) == Err::<PeerKeysView, MeshError>(
            MeshError::MissingPrekeySignature,
        ),
        signed_identity(peer_fp, b) matches Ok(key) ==> b.x_id_sig is Some && signed_by(
            lowered(peer_fp),
            key,
            b.x_id_sig->0,
        ),
        checked_keys(peer_fp, b) == Err::<PeerKeysView, MeshError>(MeshError::BadIdentitySignature)
            ==> !signed_by(lowered(peer_fp), decoded(b.x_id_pub->0)->Ok_0, b.x_id_sig->0),
        checked_keys(peer_fp, b) == Err::<PeerKeysView, MeshError>(MeshError::BadPrekeySignature)
            ==> !signed_by(lowered(peer_fp), decoded(b.spk_pub->0)->Ok_0, b.spk_sig->0),
{
}

/// A bundle is what its reply says, member by member.
pub proof fn law_bundle_is_read(doc: Seq<u8>, b: BundleView)
    requires
        json_text(doc, "x_id_pub"@) == b.x_id_pub,
        json_text(doc, "x_id_sig"@) == b.x_id_sig,
        json_text(doc, "spk_pub"@) == b.spk_pub,
        json_text(doc, "spk_sig"@) == b.spk_sig,
        json_number(doc, "spk_id"@) == b.spk_id,
        json_text(doc, "opk_pub"@) == b.opk_pub,
        json_number(doc, "opk_id"@) == b.opk_id,
    ensures
        bundle_in(doc) == b,
{
}

fn check_signed_key(
    fp: &str,
    key: &Option<String>,
    signature: &Option<String>,
    no_key: MeshError,
    no_signature: MeshError,
    not_signed: MeshError,
) -> (r: Result<Vec<u8>, MeshError>)
    ensures
        res_view(r) == signed_key(
            fp@,
            opt_view(*key),
            opt_view(*signature),
            no_key,
            no_signature,
            not_signed,
        ),
{
    match (key, signature) {
        (None, _) => Err(no_key),
        (_, None) => Err(no_signature),
        (Some(k), Some(s)) => {
            let bytes = b64_decode(k.as_str())?;
            if ed_verify(fp, bytes.as_slice(), s.as_str())? {
                Ok(bytes)
            } else {
                Err(not_signed)
            }
        },
    }
}

/// Checks a bundle against the peer's fingerprint and takes the keys out of it.
pub fn check_bundle(peer_fp: &str, bundle: &Bundle) -> (r: Result<PeerKeys, MeshError>)
    ensures
        res_view(r) == checked_keys(peer_fp@, bundle@),
{
    let fp = ascii_lower(peer_fp);
    let x_id_bytes = check_signed_key(
        fp.as_str(),
        &bundle.x_id_pub,
        &bundle.x_id_sig,
        MeshError::MissingIdentityKey,
        MeshError::MissingIdentitySignature,
        MeshError::BadIdentitySignature,
    )?;
    let spk_bytes = check_signed_key(
        fp.as_str(),
        &bundle.spk_pub,
        &bundle.spk_sig,
        MeshError::MissingSignedPrekey,
        MeshError::MissingPrekeySignature,
        MeshError::BadPrekeySignature,
    )?;
    let (x_id, spk) = match (exact32(x_id_bytes.as_slice()), exact32(spk_bytes.as_slice())) {
        (Some(x), Some(s)) => (x, s),
        _ => {
            return Err(MeshError::BundleKeyLength);
        },
    };
    let opk: Option<[u8; 32]> = match &bundle.opk_pub {
        None => None,
        Some(text) => match b64_decode_key(text.as_str(), MeshError::BundleKeyLength) {
            Ok(key) => Some(key),
            Err(_) => {
                return Err(MeshError::BundleKeyLength);
            },
        },
    };
    let spk_id: u32 = match bundle.spk_id {
        Some(id) => (id % 0x1_0000_0000) as u32,
        None => 0,
    };
    let opk_id: u32 = match bundle.opk_id {
        Some(id) => (id % 0x1_0000_0000) as u32,
        None => OPK_NONE,
    };
    Ok(PeerKeys { x_id, spk, opk, spk_id, opk_id })
}

// ---------------------------------------------------------------- the shared secret

/// What binds a shared secret to the two parties and the prekeys.
pub open spec fn x3dh_info(from: Seq<u8>, to: Seq<u8>, spk_id: u32, opk_id: u32) -> Seq<u8> {
    label("mesh-v3-x3dh v1") + from + to + be32(spk_id) + be32(opk_id)
}

/// The Diffie-Hellman secrets in the order in which they are hashed; the last one only with a
/// one-time prekey.
pub open spec fn x3dh_ikm(dh1: Seq<u8>, dh2: Seq<u8>, dh3: Seq<u8>, dh4: Option<Seq<u8>>) -> Seq<
    u8,
> {
    dh1 + dh2 + dh3 + (match dh4 {
        Some(d) => d,
        None => Seq::empty(),
    })
}

/// The shared secret of two parties.
pub open spec fn x3dh_secret(
    ikm: Seq<u8>,
    from: Seq<u8>,
    to: Seq<u8>,
    spk_id: u32,
    opk_id: u32,
) -> Seq<u8> {
    hkdf_sha256(None, ikm, x3dh_info(from, to, spk_id, opk_id), KEY_LEN as nat)
}

/// The initiator's shared secret: from the private identity key and the private ephemeral key to
/// the peer's identity key, signed prekey and one-time prekey.
pub open spec fn initiator_secret(
    x_priv: Seq<u8>,
    ek_priv: Seq<u8>,
    from: Seq<u8>,
    to: Seq<u8>,
    keys: PeerKeysView,
) -> Seq<u8> {
    x3dh_secret(
        x3dh_ikm(
            x25519(x_priv, keys.spk),
            x25519(ek_priv, keys.x_id),
            x25519(ek_priv, keys.spk),
            match keys.opk {
                Some(opk) => Some(x25519(ek_priv, opk)),
                None => None,
            },
        ),
        from,
        to,
        keys.spk_id,
        keys.opk_id,
    )
}

/// What the initiator gets: the shared secret, the public ephemeral key and the numbers of the
/// prekeys.
pub open spec fn initiated(
    x_priv: Seq<u8>,
    my_fp: Seq<char>,
    peer_fp: Seq<char>,
    keys: PeerKeysView,
    ek_priv: Seq<u8>,
) -> Result<(Seq<u8>, Seq<u8>, u32, u32), MeshError> {
    match fp_bytes(my_fp) {
        Err(e) => Err(e),
        Ok(from) => match fp_bytes(lowered(peer_fp)) {
            Err(e) => Err(e),
            Ok(to) => Ok(
                (
                    initiator_secret(x_priv, ek_priv, from, to, keys),
                    x25519_public(ek_priv),
                    keys.spk_id,
                    keys.opk_id,
                ),
            ),
        },
    }
}

/// What the secret of an initiator is derived from: the agreements of the identity key with the
/// signed prekey, of the ephemeral key with the identity key, with the signed prekey and, wherever
/// there is one, with the one-time prekey, one after the other; bound to the two fingerprints and
/// the two numbers.
pub proof fn law_what_the_secret_is_made_of(
    x_priv: Seq<u8>,
    ek_priv: Seq<u8>,
    from: Seq<u8>,
    to: Seq<u8>,
    keys: PeerKeysView,
)
    ensures
        keys.opk matches Some(opk) ==> initiator_secret(x_priv, ek_priv, from, to, keys)
            == hkdf_sha256(
            None,
            x25519(x_priv, keys.spk) + x25519(ek_priv, keys.x_id) + x25519(ek_priv, keys.spk)
                + x25519(ek_priv, opk),
            "mesh-v3-x3dh v1".spec_bytes() + from + to + be32(keys.spk_id) + be32(keys.opk_id),
            32,
        ),
        keys.opk is None ==> initiator_secret(x_priv, ek_priv, from, to, keys) == hkdf_sha256(
            None,
            x25519(x_priv, keys.spk) + x25519(ek_priv, keys.x_id) + x25519(ek_priv, keys.spk),
            "mesh-v3-x3dh v1".spec_bytes() + from + to + be32(keys.spk_id) + be32(keys.opk_id),
            32,
        ),
{
    let ikm = x25519(x_priv, keys.spk) + x25519(ek_priv, keys.x_id) + x25519(ek_priv, keys.spk);
    assert(ikm + Seq::<u8>::empty() =~= ikm);
}

/// An initiator gets a secret wherever the two fingerprints are sound, and with it the public
/// ephemeral key and the numbers of the prekeys that the peer's keys came with.
pub proof fn law_what_the_initiator_gets(
    x_priv: Seq<u8>,
    my_fp: Seq<char>,
    peer_fp: Seq<char>,
    keys: PeerKeysView,
    ek_priv: Seq<u8>,
)
    ensures
        initiated(x_priv, my_fp, peer_fp, keys, ek_priv) is Ok <==> fp_bytes(my_fp) is Ok
            && fp_bytes(lowered(peer_fp)) is Ok,
        initiated(x_priv, my_fp, peer_fp, keys, ek_priv) matches Ok(t) ==> {
            &&& t.0 == initiator_secret(
                x_priv,
                ek_priv,
                fp_bytes(my_fp)->Ok_0,
                fp_bytes(lowered(peer_fp))->Ok_0,
                keys,
            )
            &&& t.1 == x25519_public(ek_priv)
            &&& t.2 == keys.spk_id
            &&& t.3 == keys.opk_id
        },
{
}

/// The views of the initiator's result.
pub open spec fn initiated_view(
    r: Result<(Vec<u8>, [u8; 32], u32, u32), MeshError>,
) -> Result<(Seq<u8>, Seq<u8>, u32, u32), MeshError> {
    match r {
        Ok(t) => Ok((t.0@, t.1@, t.2, t.3)),
        Err(e) => Err(e),
    }
}

fn derive_secret(
    dh1: &[u8; 32],
    dh2: &[u8; 32],
    dh3: &[u8; 32],
    dh4: &Option<[u8; 32]>,
    from: &[u8; 32],
    to: &[u8; 32],
    spk_id: u32,
    opk_id: u32,
) -> (r: Vec<u8>)
    ensures
        r@ == x3dh_secret(x3dh_ikm(dh1@, dh2@, dh3@, opt_view(*dh4)), from@, to@, spk_id, opk_id),
        r@.len() == KEY_LEN,
{
    let mut ikm: Vec<u8> = Vec::new();
    push_bytes(&mut ikm, dh1.as_slice());
    push_bytes(&mut ikm, dh2.as_slice());
    push_bytes(&mut ikm, dh3.as_slice());
    if let Some(d) = dh4 {
        push_bytes(&mut ikm, d.as_slice());
    }
    assert(ikm@ =~= x3dh_ikm(dh1@, dh2@, dh3@, opt_view(*dh4)));
    let mut info: Vec<u8> = Vec::new();
    push_bytes(&mut info, "mesh-v3-x3dh v1".as_bytes());
    push_bytes(&mut info, from.as_slice());
    push_bytes(&mut info, to.as_slice());
    push_be32(&mut info, spk_id);
    push_be32(&mut info, opk_id);
    assert(info@ =~= x3dh_info(from@, to@, spk_id, opk_id));
    let sk = hkdf_derive(ikm.as_slice(), info.as_slice(), KEY_LEN).unwrap();
    wipe(&mut ikm);
    sk
}

/// The initiator's side of the agreement, with a given ephemeral key.
pub fn x3dh_initiate(
    my_x_priv: &[u8; 32],
    my_fp: &str,
    peer_fp: &str,
    keys: &PeerKeys,
    ek_priv: &[u8; 32],
) -> (r: Result<(Vec<u8>, [u8; 32], u32, u32), MeshError>)
    ensures
        initiated_view(r) == initiated(my_x_priv@, my_fp@, peer_fp@, keys@, ek_priv@),
        r matches Ok(t) ==> t.0@.len() == KEY_LEN,
{
    let from = fp_to_bytes(my_fp)?;
    let to = fp_to_bytes(ascii_lower(peer_fp).as_str())?;
    let dh1 = x25519_shared(my_x_priv, &keys.spk);
    let dh2 = x25519_shared(ek_priv, &keys.x_id);
    let dh3 = x25519_shared(ek_priv, &keys.spk);
    let dh4: Option<[u8; 32]> = match &keys.opk {
        Some(opk) => Some(x25519_shared(ek_priv, opk)),
        None => None,
    };
    let sk = derive_secret(&dh1, &dh2, &dh3, &dh4, &from, &to, keys.spk_id, keys.opk_id);
    Ok((sk, x25519_public_key(ek_priv), keys.spk_id, keys.opk_id))
}

/// The initiator's side of the agreement, with an ephemeral key that is drawn here: the shared
/// secret, the public ephemeral key, and the numbers of the prekeys used.
pub fn x3dh_alice(my_x_priv: &[u8; 32], my_fp: &str, peer_fp: &str, bundle: &Bundle) -> (r: Result<
    (Vec<u8>, [u8; 32], u32, u32),
    MeshError,
>)
    ensures
        checked_keys(peer_fp@, bundle@) matches Err(e) ==> r == Err::<
            (Vec<u8>, [u8; 32], u32, u32),
            MeshError,
        >(e),
        checked_keys(peer_fp@, bundle@) matches Ok(keys) ==> {
            ||| r matches Err(e) && e == MeshError::NoRandomness
            ||| exists|ek_priv: Seq<u8>|
                {
                    &&& ek_priv.len() == KEY_LEN
                    &&& initiated_view(r) == #[trigger] initiated(
                        my_x_priv@,
                        my_fp@,
                        peer_fp@,
                        keys,
                        ek_priv,
                    )
                }
        },
        r matches Ok(t) ==> t.0@.len() == KEY_LEN,
{
    let keys = check_bundle(peer_fp, bundle)?;
    match random_array::<32>() {
        Some(mut ek_priv) => {
            let r = x3dh_initiate(my_x_priv, my_fp, peer_fp, &keys, &ek_priv);
            wipe_key(&mut ek_priv);
            r
        },
        None => Err(MeshError::NoRandomness),
    }
}

// ---------------------------------------------------------------- the other side

/// The private prekey that the text of a prekey file holds.
pub open spec fn stored_prekey(text: Option<Seq<char>>) -> Result<Seq<u8>, MeshError> {
    match text {
        None => Err(MeshError::PrekeyMissing),
        Some(t) => decoded_key(t, MeshError::PrekeyLength),
    }
}

/// Reads a private prekey out of the text of its file; `None` where there is no file.
pub fn load_prekey_priv(text: Option<&str>) -> (r: Result<[u8; 32], MeshError>)
    ensures
        res_view(r) == stored_prekey(opt_view(text)),
{
    match text {
        None => Err(MeshError::PrekeyMissing),
        Some(t) => b64_decode_key(t, MeshError::PrekeyLength),
    }
}

/// The responder's shared secret.
pub open spec fn responder_secret(
    x_priv: Seq<u8>,
    spk_priv: Seq<u8>,
    opk_priv: Option<Seq<u8>>,
    peer_x_pub: Seq<u8>,
    ek_pub: Seq<u8>,
    from: Seq<u8>,
    to: Seq<u8>,
    spk_id: u32,
    opk_id: u32,
) -> Seq<u8> {
    x3dh_secret(
        x3dh_ikm(
            x25519(spk_priv, peer_x_pub),
            x25519(x_priv, ek_pub),
            x25519(spk_priv, ek_pub),
            match opk_priv {
                Some(opk) => Some(x25519(opk, ek_pub)),
                None => None,
            },
        ),
        from,
        to,
        spk_id,
        opk_id,
    )
}

/// The private one-time prekey that an agreement uses: none where the number says so.
pub open spec fn stored_opk(opk_id: u32, text: Option<Seq<char>>) -> Result<
    Option<Seq<u8>>,
    MeshError,
> {
    if opk_id == OPK_NONE {
        Ok(None)
    } else {
        match stored_prekey(text) {
            Ok(key) => Ok(Some(key)),
            Err(e) => Err(e),
        }
    }
}

/// What the responder gets.
pub open spec fn responded(
    x_priv: Seq<u8>,
    my_fp: Seq<char>,
    peer_fp: Seq<char>,
    peer_x_pub: Seq<u8>,
    ek_pub: Seq<u8>,
    spk_id: u32,
    opk_id: u32,
    spk_file: Option<Seq<char>>,
    opk_file: Option<Seq<char>>,
) -> Result<Seq<u8>, MeshError> {
    match stored_prekey(spk_file) {
        Err(e) => Err(e),
        Ok(spk_priv) => match stored_opk(opk_id, opk_file) {
            Err(e) => Err(e),
            Ok(opk_priv) => match fp_bytes(peer_fp) {
                Err(e) => Err(e),
                Ok(from) => match fp_bytes(my_fp) {
                    Err(e) => Err(e),
                    Ok(to) => Ok(
                        responder_secret(
                            x_priv,
                            spk_priv,
                            opk_priv,
                            peer_x_pub,
                            ek_pub,
                            from,
                            to,
                            spk_id,
                            opk_id,
                        ),
                    ),
                },
            },
        },
    }
}

/// The public keys that a responder with these private keys has published.
pub open spec fn published_keys(
    x_priv: Seq<u8>,
    spk_priv: Seq<u8>,
    opk_priv: Option<Seq<u8>>,
    spk_id: u32,
    opk_id: u32,
) -> PeerKeysView {
    PeerKeysView {
        x_id: x25519_public(x_priv),
        spk: x25519_public(spk_priv),
        opk: match opk_priv {
            Some(opk) => Some(x25519_public(opk)),
            None => None,
        },
        spk_id,
        opk_id,
    }
}

/// A private prekey is read back from its file; a file of another length, or of no base64, is
/// refused, and so is a missing one.
pub proof fn law_prekey_file_is_read(key: Seq<u8>)
    ensures
        key.len() == 32 ==> stored_prekey(Some(b64url_text(key))) == Ok::<Seq<u8>, MeshError>(key),
        key.len() != 32 ==> stored_prekey(Some(b64url_text(key))) == Err::<Seq<u8>, MeshError>(
            MeshError::PrekeyLength,
        ),
        stored_prekey(None) == Err::<Seq<u8>, MeshError>(MeshError::PrekeyMissing),
        forall|text: Seq<char>|
            (#[trigger] b64_bytes(text)) is None ==> stored_prekey(Some(text)) == Err::<
                Seq<u8>,
                MeshError,
            >(MeshError::BadBase64),
{
    broadcast use law_b64_reads_back;

}

/// `one` and `other` are private keys that give the same secret with each other's public key.
pub open spec fn agree(one: Seq<u8>, other: Seq<u8>) -> bool {
    x25519(one, x25519_public(other)) == x25519(other, x25519_public(one))
}

/// Both sides agree, whatever the number of the one-time prekey is: the responder loads the private
/// keys of the prekeys that were published from their files and has the initiator's secret, as long
/// as a one-time prekey was used wherever there is a number for one. The premises on the private
/// keys are what the agreement of two parties gives.
pub proof fn law_both_sides_agree(
    x_priv: Seq<u8>,
    spk_priv: Seq<u8>,
    opk_priv: Option<Seq<u8>>,
    spk_id: u32,
    opk_id: u32,
    opk_file: Option<Seq<char>>,
    peer_x_priv: Seq<u8>,
    ek_priv: Seq<u8>,
    my_fp: Seq<char>,
    peer_fp: Seq<char>,
)
    requires
        spk_priv.len() == 32,
        opk_id != 0xffff_ffff <==> opk_priv is Some,
        opk_priv matches Some(opk) ==> opk.len() == 32 && opk_file == Some(b64url_text(opk)),
        fp_bytes(my_fp) is Ok,
        fp_bytes(peer_fp) is Ok,
        agree(peer_x_priv, spk_priv),
        agree(ek_priv, x_priv),
        agree(ek_priv, spk_priv),
        opk_priv matches Some(opk) ==> agree(ek_priv, opk),
    ensures
        initiated(
            peer_x_priv,
            peer_fp,
            my_fp,
            published_keys(x_priv, spk_priv, opk_priv, spk_id, opk_id),
            ek_priv,
        ) matches Ok(t) && responded(
            x_priv,
            my_fp,
            peer_fp,
            x25519_public(peer_x_priv),
            t.1,
            t.2,
            t.3,
            Some(b64url_text(spk_priv)),
            opk_file,
        ) == Ok::<Seq<u8>, MeshError>(t.0) && t.0 == initiator_secret(
            peer_x_priv,
            ek_priv,
            fp_bytes(peer_fp)->Ok_0,
            fp_bytes(my_fp)->Ok_0,
            published_keys(x_priv, spk_priv, opk_priv, spk_id, opk_id),
        ),
{
    law_fingerprint_in_either_case(my_fp);
    law_prekey_file_is_read(spk_priv);
    if let Some(opk) = opk_priv {
        law_prekey_file_is_read(opk);
    }
}

/// What the secret of a responder is derived from: the agreements of the signed prekey with the
/// peer's identity key, of the identity key and the signed prekey with the ephemeral key and, with
/// any number that stands for one, of the one-time prekey with the ephemeral key; bound to the two
/// fingerprints and the two numbers.
pub proof fn law_what_the_responder_gets(
    x_priv: Seq<u8>,
    my_fp: Seq<char>,
    peer_fp: Seq<char>,
    peer_x_pub: Seq<u8>,
    ek_pub: Seq<u8>,
    spk_id: u32,
    opk_id: u32,
    spk: Seq<u8>,
    opk: Seq<u8>,
    opk_file: Option<Seq<char>>,
)
    requires
        spk.len() == 32,
        fp_bytes(my_fp) is Ok,
        fp_bytes(peer_fp) is Ok,
        opk_id != 0xffff_ffff ==> opk.len() == 32 && opk_file == Some(b64url_text(opk)),
    ensures
        ({
            let three = x25519(spk, peer_x_pub) + x25519(x_priv, ek_pub) + x25519(spk, ek_pub);
            let info = "mesh-v3-x3dh v1".spec_bytes() + fp_bytes(peer_fp)->Ok_0 + fp_bytes(
                my_fp,
            )->Ok_0 + be32(spk_id) + be32(opk_id);
            responded(
                x_priv,
                my_fp,
                peer_fp,
                peer_x_pub,
                ek_pub,
                spk_id,
                opk_id,
                Some(b64url_text(spk)),
                opk_file,
            ) == Ok::<Seq<u8>, MeshError>(
                hkdf_sha256(
                    None,
                    if opk_id != 0xffff_ffff {
                        three + x25519(opk, ek_pub)
                    } else {
                        three
                    },
                    info,
                    32,
                ),
            )
        }),
{
    law_prekey_file_is_read(spk);
    law_prekey_file_is_read(opk);
    let three = x25519(spk, peer_x_pub) + x25519(x_priv, ek_pub) + x25519(spk, ek_pub);
    assert(three + Seq::<u8>::empty() =~= three);
}

/// What a responder lacks ends the processing of an inbox only where a prekey file of one's own has
/// another length than a key's.
pub proof fn law_when_a_responder_gives_up(
    x_priv: Seq<u8>,
    my_fp: Seq<char>,
    peer_fp: Seq<char>,
    peer_x_pub: Seq<u8>,
    ek_pub: Seq<u8>,
    spk_id: u32,
    opk_id: u32,
    spk_file: Option<Seq<char>>,
    opk_file: Option<Seq<char>>,
)
    ensures
        responded(
            x_priv,
            my_fp,
            peer_fp,
            peer_x_pub,
            ek_pub,
            spk_id,
            opk_id,
            spk_file,
            opk_file,
        ) matches Err(e) ==> (e.spec_ends_poll() <==> {
            ||| spk_file matches Some(text) && b64_bytes(text) matches Some(key) && key.len() != 32
            ||| stored_prekey(spk_file) is Ok && opk_id != 0xffff_ffff && (opk_file matches Some(
                text,
            ) && b64_bytes(text) matches Some(key) && key.len() != 32)
        }),
{
}

/// A responder gets a secret wherever the prekeys that were used can be loaded and the two
/// fingerprints are sound; without a number for one, no one-time prekey is needed.
pub proof fn law_what_the_responder_needs(
    x_priv: Seq<u8>,
    my_fp: Seq<char>,
    peer_fp: Seq<char>,
    peer_x_pub: Seq<u8>,
    ek_pub: Seq<u8>,
    spk_id: u32,
    opk_id: u32,
    spk_file: Option<Seq<char>>,
    opk_file: Option<Seq<char>>,
)
    ensures
        responded(
            x_priv,
            my_fp,
            peer_fp,
            peer_x_pub,
            ek_pub,
            spk_id,
            opk_id,
            spk_file,
            opk_file,
        ) is Ok <==> {
            &&& stored_prekey(spk_file) is Ok
            &&& opk_id != 0xffff_ffff ==> stored_prekey(opk_file) is Ok
            &&& fp_bytes(peer_fp) is Ok
            &&& fp_bytes(my_fp) is Ok
        },
        spk_file is None ==> responded(
            x_priv,
            my_fp,
            peer_fp,
            peer_x_pub,
            ek_pub,
            spk_id,
            opk_id,
            spk_file,
            opk_file,
        ) == Err::<Seq<u8>, MeshError>(MeshError::PrekeyMissing),
        stored_prekey(spk_file) is Ok && opk_id != 0xffff_ffff && opk_file is None ==> responded(
            x_priv,
            my_fp,
            peer_fp,
            peer_x_pub,
            ek_pub,
            spk_id,
            opk_id,
            spk_file,
            opk_file,
        ) == Err::<Seq<u8>, MeshError>(MeshError::PrekeyMissing),
{
}

/// The responder's side of the agreement, from the texts of the prekey files. An initiator whose
/// public keys the message carries, and who used the public keys of these prekeys, has the same
/// secret; with a number for a one-time prekey, that is the one whose private key is in its file.
pub fn x3dh_bob(
    my_x_priv: &[u8; 32],
    my_fp: &str,
    peer_fp: &str,
    peer_x_pub: &[u8; 32],
    ek_pub: &[u8; 32],
    spk_id: u32,
    opk_id: u32,
    spk_file: Option<&str>,
    opk_file: Option<&str>,
) -> (r: Result<Vec<u8>, MeshError>)
    ensures
        res_view(r) == responded(
            my_x_priv@,
            my_fp@,
            peer_fp@,
            peer_x_pub@,
            ek_pub@,
            spk_id,
            opk_id,
            opt_view(spk_file),
            opt_view(opk_file),
        ),
        r matches Ok(sk) ==> sk@.len() == KEY_LEN,
        r matches Ok(sk) ==> forall|x_priv: Seq<u8>, ek_priv: Seq<u8>|
            x_priv.len() == KEY_LEN && ek_priv.len() == KEY_LEN && peer_x_pub@
                == #[trigger] x25519_public(x_priv) && ek_pub@ == #[trigger] x25519_public(ek_priv)
                ==> sk@ == initiator_secret(
                x_priv,
                ek_priv,
                fp_bytes(peer_fp@)->Ok_0,
                fp_bytes(my_fp@)->Ok_0,
                published_keys(
                    my_x_priv@,
                    stored_prekey(opt_view(spk_file))->Ok_0,
                    stored_opk(opk_id, opt_view(opk_file))->Ok_0,
                    spk_id,
                    opk_id,
                ),
            ),
        forall|x_priv: Seq<u8>, ek_priv: Seq<u8>, spk: Seq<u8>, opk: Option<Seq<u8>>|
            #![trigger x25519_public(x_priv), x25519_public(ek_priv), published_keys(
                my_x_priv@,
                spk,
                opk,
                spk_id,
                opk_id,
            )]
            {
                &&& x_priv.len() == KEY_LEN
                &&& ek_priv.len() == KEY_LEN
                &&& peer_x_pub@ == x25519_public(x_priv)
                &&& ek_pub@ == x25519_public(ek_priv)
                &&& fp_bytes(peer_fp@) is Ok
                &&& fp_bytes(my_fp@) is Ok
                &&& spk.len() == 32
                &&& opt_view(spk_file) == Some(b64url_text(spk))
                &&& opk_id != 0xffff_ffff <==> opk is Some
                &&& opk matches Some(key) ==> key.len() == 32 && opt_view(opk_file) == Some(
                    b64url_text(key),
                )
            } ==> res_view(r) == Ok::<Seq<u8>, MeshError>(
                initiator_secret(
                    x_priv,
                    ek_priv,
                    fp_bytes(peer_fp@)->Ok_0,
                    fp_bytes(my_fp@)->Ok_0,
                    published_keys(my_x_priv@, spk, opk, spk_id, opk_id),
                ),
            ),
{
    broadcast use law_b64_reads_back;

    let spk_priv = load_prekey_priv(spk_file)?;
    let dh1 = x25519_shared(&spk_priv, peer_x_pub);
    let dh2 = x25519_shared(my_x_priv, ek_pub);
    let dh3 = x25519_shared(&spk_priv, ek_pub);
    let dh4: Option<[u8; 32]> = if opk_id != OPK_NONE {
        let opk_priv = load_prekey_priv(opk_file)?;
        Some(x25519_shared(&opk_priv, ek_pub))
    } else {
        None
    };
    let from = fp_to_bytes(peer_fp)?;
    let to = fp_to_bytes(my_fp)?;
    let sk = derive_secret(&dh1, &dh2, &dh3, &dh4, &from, &to, spk_id, opk_id);
    Ok(sk)
}

} // verus!
