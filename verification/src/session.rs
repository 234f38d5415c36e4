//! The state of a conversation with one peer.
use vstd::prelude::*;
use vstd::string::*;

use crate::bytes::{opt_view, res_view, KEY_LEN};
use crate::encoding::{b64_decode, b64_decode_key, b64_encode};
use crate::error::MeshError;
use crate::kdf::{generate_dh_keypair, hkdf_derive};
use crate::paths::now_secs;
use crate::skipped::SkippedKeys;

verus! {

use crate::b64::b64url_text;
use crate::encoding::{b64_bytes, decoded, decoded_key, law_b64_reads_back};
use crate::kdf::label;
use crate::primitives::{hkdf_sha256, x25519_public};
use crate::sending::{law_new_session_reads_itself, reads_itself};

/// How long a session may be used, in seconds: seven days.
pub const SESSION_LIFETIME: i64 = 604800;

/// A session as it is stored. Keys are base64 texts.
#[derive(Debug, Clone)]
pub struct Session {
    /// The root key.
    pub root_key_b64: String,
    /// The key of the sending chain.
    pub chain_send_b64: Option<String>,
    /// The key of the receiving chain.
    pub chain_recv_b64: Option<String>,
    /// The private key of the own ratchet pair.
    pub dh_send_priv_b64: String,
    /// The public key of the own ratchet pair.
    pub dh_send_pub_b64: String,
    /// The peer's ratchet key.
    pub dh_recv_pub_b64: Option<String>,
    /// The number of the next message on the sending chain.
    pub n_send: u32,
    /// The number of the next message on the receiving chain.
    pub n_recv: u32,
    /// The length of the sending chain before this one.
    pub pn: u32,
    /// The key of message headers.
    pub header_key_b64: String,
    /// The keys of passed-over messages.
    pub skipped_keys: SkippedKeys,
    /// When the session began, in seconds since the epoch.
    pub created_at: i64,
}

/// What a session holds.
#[verifier::ext_equal]
pub ghost struct SessionView {
    pub root_key_b64: Seq<char>,
    pub chain_send_b64: Option<Seq<char>>,
    pub chain_recv_b64: Option<Seq<char>>,
    pub dh_send_priv_b64: Seq<char>,
    pub dh_send_pub_b64: Seq<char>,
    pub dh_recv_pub_b64: Option<Seq<char>>,
    pub n_send: u32,
    pub n_recv: u32,
    pub pn: u32,
    pub header_key_b64: Seq<char>,
    pub skipped_keys: Seq<(Seq<char>, Seq<char>)>,
    pub created_at: i64,
}

impl View for Session {
    type V = SessionView;

    open spec fn view(&self) -> SessionView {
        SessionView {
            root_key_b64: self.root_key_b64@,
            chain_send_b64: opt_view(self.chain_send_b64),
            chain_recv_b64: opt_view(self.chain_recv_b64),
            dh_send_priv_b64: self.dh_send_priv_b64@,
            dh_send_pub_b64: self.dh_send_pub_b64@,
            dh_recv_pub_b64: opt_view(self.dh_recv_pub_b64),
            n_send: self.n_send,
            n_recv: self.n_recv,
            pn: self.pn,
            header_key_b64: self.header_key_b64@,
            skipped_keys: self.skipped_keys@,
            created_at: self.created_at,
        }
    }
}

/// What decoding an optional base64 text gives.
pub open spec fn decoded_option(text: Option<Seq<char>>) -> Result<Option<Seq<u8>>, MeshError> {
    match text {
        None => Ok(None),
        Some(t) => match decoded(t) {
            Ok(bytes) => Ok(Some(bytes)),
            Err(e) => Err(e),
        },
    }
}

/// The views of an optional value inside a result.
pub open spec fn res_opt_view<T: View>(r: Result<Option<T>, MeshError>) -> Result<
    Option<T::V>,
    MeshError,
> {
    match r {
        Ok(o) => Ok(opt_view(o)),
        Err(e) => Err(e),
    }
}

/// An optional key is decoded where it is there, and missing where it is not.
pub proof fn law_optional_keys(text: Option<Seq<char>>)
    ensures
        text is None ==> decoded_option(text) == Ok::<Option<Seq<u8>>, MeshError>(None),
        text matches Some(t) ==> match b64_bytes(t) {
            Some(bytes) => decoded_option(text) == Ok::<Option<Seq<u8>>, MeshError>(Some(bytes)),
            None => decoded_option(text) == Err::<Option<Seq<u8>>, MeshError>(MeshError::BadBase64),
        },
{
}

impl Session {
    /// The root key.
    pub fn root_key(&self) -> (r: Result<Vec<u8>, MeshError>)
        ensures
            res_view(r) == decoded(self@.root_key_b64),
    {
        b64_decode(self.root_key_b64.as_str())
    }

    /// The key of the sending chain, if there is one.
    pub fn chain_send(&self) -> (r: Result<Option<Vec<u8>>, MeshError>)
        ensures
            res_opt_view(r) == decoded_option(self@.chain_send_b64),
    {
        match &self.chain_send_b64 {
            Some(text) => Ok(Some(b64_decode(text.as_str())?)),
            None => Ok(None),
        }
    }

    /// The key of the receiving chain, if there is one.
    pub fn chain_recv(&self) -> (r: Result<Option<Vec<u8>>, MeshError>)
        ensures
            res_opt_view(r) == decoded_option(self@.chain_recv_b64),
    {
        match &self.chain_recv_b64 {
            Some(text) => Ok(Some(b64_decode(text.as_str())?)),
            None => Ok(None),
        }
    }

    /// The private key of the own ratchet pair.
    pub fn dh_send_priv_bytes(&self) -> (r: Result<[u8; 32], MeshError>)
        ensures
            res_view(r) == decoded_key(self@.dh_send_priv_b64, MeshError::DhPrivateLength),
    {
        b64_decode_key(self.dh_send_priv_b64.as_str(), MeshError::DhPrivateLength)
    }

    /// The public key of the own ratchet pair.
    pub fn dh_send_pub_bytes(&self) -> (r: Result<[u8; 32], MeshError>)
        ensures
            res_view(r) == decoded_key(self@.dh_send_pub_b64, MeshError::DhPublicLength),
    {
        b64_decode_key(self.dh_send_pub_b64.as_str(), MeshError::DhPublicLength)
    }

    /// The peer's ratchet key, if it is known.
    pub fn dh_recv_pub_bytes(&self) -> (r: Result<Option<[u8; 32]>, MeshError>)
        ensures
            res_opt_view(r) == (match self@.dh_recv_pub_b64 {
                None => Ok::<Option<Seq<u8>>, MeshError>(None),
                Some(text) => match decoded_key(text, MeshError::DhReceivedLength) {
                    Ok(key) => Ok(Some(key)),
                    Err(e) => Err(e),
                },
            }),
    {
        match &self.dh_recv_pub_b64 {
            Some(text) => Ok(
                Some(b64_decode_key(text.as_str(), MeshError::DhReceivedLength)?),
            ),
            None => Ok(None),
        }
    }

    /// The key of message headers.
    pub fn header_key(&self) -> (r: Result<[u8; 32], MeshError>)
        ensures
            res_view(r) == decoded_key(self@.header_key_b64, MeshError::HeaderKeyLength),
    {
        b64_decode_key(self.header_key_b64.as_str(), MeshError::HeaderKeyLength)
    }
}

// ---------------------------------------------------------------- the start of a session

/// The header key that a shared secret gives.
pub open spec fn header_key_of(sk: Seq<u8>) -> Seq<u8> {
    hkdf_sha256(None, sk, label("mesh-v3-header v1"), KEY_LEN as nat)
}

/// The first chain key that a shared secret gives.
pub open spec fn first_chain(sk: Seq<u8>) -> Seq<u8> {
    hkdf_sha256(None, sk, label("mesh-v3-chain"), KEY_LEN as nat)
}

/// A new session from a shared secret, the peer's ratchet key, an own ratchet pair and the time.
/// Both chains start at the same key. A peer key of another length than a key's is left out.
pub open spec fn session_start(
    sk: Seq<u8>,
    peer_dh: Seq<u8>,
    dh_priv: Seq<u8>,
    dh_pub: Seq<u8>,
    now: i64,
) -> SessionView {
    SessionView {
        root_key_b64: b64url_text(sk),
        chain_send_b64: Some(b64url_text(first_chain(sk))),
        chain_recv_b64: Some(b64url_text(first_chain(sk))),
        dh_send_priv_b64: b64url_text(dh_priv),
        dh_send_pub_b64: b64url_text(dh_pub),
        dh_recv_pub_b64: if peer_dh.len() == KEY_LEN {
            Some(b64url_text(peer_dh))
        } else {
            None
        },
        n_send: 0,
        n_recv: 0,
        pn: 0,
        header_key_b64: b64url_text(header_key_of(sk)),
        skipped_keys: Seq::empty(),
        created_at: now,
    }
}

/// The session of the one who accepts a conversation: there is no sending chain, so that a reply
/// starts one with a step of the ratchet.
pub open spec fn session_accepted(
    sk: Seq<u8>,
    peer_dh: Seq<u8>,
    dh_priv: Seq<u8>,
    dh_pub: Seq<u8>,
    now: i64,
) -> SessionView {
    SessionView { chain_send_b64: None, ..session_start(sk, peer_dh, dh_priv, dh_pub, now) }
}

/// The keys that a shared secret gives have the length of keys.
pub open spec fn start_keys_sized(sk: Seq<u8>) -> bool {
    &&& first_chain(sk).len() == KEY_LEN
    &&& header_key_of(sk).len() == KEY_LEN
}

/// A new session holds what it is given: the secret is its root key, both chains start at what the
/// secret derives, the header key is derived from it too, and nothing has been sent or received.
pub proof fn law_new_session(
    sk: Seq<u8>,
    peer_dh: Seq<u8>,
    dh_priv: Seq<u8>,
    dh_pub: Seq<u8>,
    now: i64,
)
    ensures
        ({
            let s = session_start(sk, peer_dh, dh_priv, dh_pub, now);
            let chain = hkdf_sha256(None, sk, "mesh-v3-chain".spec_bytes(), 32);
            &&& b64_bytes(s.root_key_b64) == Some(sk)
            &&& s.chain_send_b64 matches Some(text) && b64_bytes(text) == Some(chain)
            &&& s.chain_recv_b64 matches Some(text) && b64_bytes(text) == Some(chain)
            &&& b64_bytes(s.header_key_b64) == Some(
                hkdf_sha256(None, sk, "mesh-v3-header v1".spec_bytes(), 32),
            )
            &&& b64_bytes(s.dh_send_priv_b64) == Some(dh_priv)
            &&& b64_bytes(s.dh_send_pub_b64) == Some(dh_pub)
            &&& peer_dh.len() == 32 ==> (s.dh_recv_pub_b64 matches Some(text) && b64_bytes(text)
                == Some(peer_dh))
            &&& peer_dh.len() != 32 ==> s.dh_recv_pub_b64 is None
            &&& s.n_send == 0 && s.n_recv == 0 && s.pn == 0
            &&& s.skipped_keys.len() == 0
            &&& s.created_at == now
            &&& session_accepted(sk, peer_dh, dh_priv, dh_pub, now).chain_send_b64 is None
            &&& (SessionView {
                chain_send_b64: s.chain_send_b64,
                ..session_accepted(sk, peer_dh, dh_priv, dh_pub, now)
            }) == s
        }),
{
    broadcast use law_b64_reads_back;

}

/// Builds a new session.
pub fn start_session(
    sk: &[u8],
    peer_dh: &[u8],
    dh_priv: &[u8; 32],
    dh_pub: &[u8; 32],
    now: i64,
) -> (r: Session)
    requires
        sk@.len() <= usize::MAX / 4,
    ensures
        r@ == session_start(sk@, peer_dh@, dh_priv@, dh_pub@, now),
        start_keys_sized(sk@),
{
    let header_key = hkdf_derive(sk, "mesh-v3-header v1".as_bytes(), KEY_LEN).unwrap();
    let chain = hkdf_derive(sk, "mesh-v3-chain".as_bytes(), KEY_LEN).unwrap();
    let chain_b64 = b64_encode(chain.as_slice());
    let dh_recv_pub_b64 = if peer_dh.len() == KEY_LEN {
        Some(b64_encode(peer_dh))
    } else {
        None
    };
    let r = Session {
        root_key_b64: b64_encode(sk),
        chain_send_b64: Some(chain_b64.clone()),
        chain_recv_b64: Some(chain_b64),
        dh_send_priv_b64: b64_encode(dh_priv.as_slice()),
        dh_send_pub_b64: b64_encode(dh_pub.as_slice()),
        dh_recv_pub_b64,
        n_send: 0,
        n_recv: 0,
        pn: 0,
        header_key_b64: b64_encode(header_key.as_slice()),
        skipped_keys: SkippedKeys::new(),
        created_at: now,
    };
    assert(r@ =~= session_start(sk@, peer_dh@, dh_priv@, dh_pub@, now));
    r
}

/// Builds the session of one who accepts a conversation.
pub fn start_accepted(
    sk: &[u8],
    peer_dh: &[u8],
    dh_priv: &[u8; 32],
    dh_pub: &[u8; 32],
    now: i64,
) -> (s: Session)
    requires
        sk@.len() <= usize::MAX / 4,
    ensures
        s@ == session_accepted(sk@, peer_dh@, dh_priv@, dh_pub@, now),
        start_keys_sized(sk@),
{
    let mut s = start_session(sk, peer_dh, dh_priv, dh_pub, now);
    s.chain_send_b64 = None;
    s
}

/// Starts a session from a shared secret and the peer's signed prekey, with a ratchet pair that is
/// drawn here and at the time that the clock shows.
pub fn init_session_from_x3dh(sk: &[u8], peer_spk_pub: &[u8]) -> (r: Result<Session, MeshError>)
    requires
        sk@.len() <= usize::MAX / 4,
    ensures
        r matches Ok(s) ==> exists|dh_priv: Seq<u8>|
            {
                &&& dh_priv.len() == KEY_LEN
                &&& s@ == #[trigger] session_start(
                    sk@,
                    peer_spk_pub@,
                    dh_priv,
                    x25519_public(dh_priv),
                    s.created_at,
                )
            },
        r is Ok ==> start_keys_sized(sk@),
        r matches Ok(s) ==> reads_itself(s@),
        r matches Err(e) ==> e == MeshError::NoRandomness || e == MeshError::NoClock,
{
    let (dh_priv, dh_pub) = generate_dh_keypair()?;
    let now: i64 = now_secs()?;
    let s = start_session(sk, peer_spk_pub, &dh_priv, &dh_pub, now);
    assert(s@ == session_start(
        sk@,
        peer_spk_pub@,
        dh_priv@,
        x25519_public(dh_priv@),
        s.created_at,
    ));
    proof {
        law_new_session_reads_itself(sk@, peer_spk_pub@, dh_priv@, s.created_at);
    }
    Ok(s)
}

// ---------------------------------------------------------------- the end of a session

/// A session that began at `created_at` is too old to be used.
pub open spec fn timed_out(created_at: i64, now: i64) -> bool {
    now - created_at > SESSION_LIFETIME
}

/// A session is used for seven days and no longer, and at all times before it began.
pub proof fn law_seven_days(created_at: i64, now: i64)
    ensures
        timed_out(created_at, now) <==> now > created_at + 7 * 24 * 60 * 60,
        now <= created_at ==> !timed_out(created_at, now),
{
}

/// Leaves out a session that is too old to be used.
pub fn live_session(stored: Option<Session>, now: i64) -> (r: Option<Session>)
    ensures
        r == (match stored {
            Some(s) => if timed_out(s.created_at, now) {
                None
            } else {
                Some(s)
            },
            None => None,
        }),
        r matches Some(s) ==> stored == Some(s) && now <= s.created_at + 7 * 24 * 60 * 60,
        r is None ==> (stored matches Some(s) ==> now > s.created_at + 7 * 24 * 60 * 60),
{
    match stored {
        Some(s) => if now as i128 - s.created_at as i128 > SESSION_LIFETIME as i128 {
            None
        } else {
            Some(s)
        },
        None => None,
    }
}

} // verus!
