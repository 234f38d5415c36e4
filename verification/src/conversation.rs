//! Opening a conversation, accepting one, and deciding what a received message needs.
use vstd::prelude::*;
use vstd::string::*;

use crate::bytes::{opt_view, KEY_LEN};
use crate::encoding::fp_from_bytes;
use crate::envelope::{DrMessage, InitKeys};
use crate::error::MeshError;
use crate::kdf::generate_dh_keypair;
use crate::paths::now_secs;
use crate::primitives::{random_array, wipe, wipe_key};
use crate::receiving::MAX_MESSAGE_NUMBER;
use crate::session::{init_session_from_x3dh, live_session, start_accepted, Session};
use crate::x3dh::{check_bundle, x3dh_bob, x3dh_initiate, Bundle};

verus! {

use crate::encoding::{fp_bytes, law_b64_reads_back, law_fingerprint_round_trip};
use crate::envelope::{DrView, InitKeysView};
use crate::primitives::{hex_text, x25519_public};
use crate::receiving::{received, ReceivedView};
use crate::sending::{
    law_first_message,
    law_message_to_oneself,
    law_new_session_reads_itself,
    reads_itself,
    sealed_for,
    starts_conversation,
};
use crate::session::{
    session_accepted,
    session_start,
    start_keys_sized,
    timed_out,
    SessionView,
};
use crate::text::lowered;
use crate::x3dh::{
    checked_keys,
    initiated,
    published_keys,
    responded,
    stored_opk,
    stored_prekey,
    PeerKeysView,
};

// ---------------------------------------------------------------- opening

/// `session` is a new session on the secret `sk` with the peer's ratchet key `peer_dh` and an own
/// ratchet pair that belongs together.
pub open spec fn is_new_session(session: SessionView, sk: Seq<u8>, peer_dh: Seq<u8>) -> bool {
    exists|dh_priv: Seq<u8>|
        {
            &&& dh_priv.len() == KEY_LEN
            &&& session == #[trigger] session_start(
                sk,
                peer_dh,
                dh_priv,
                x25519_public(dh_priv),
                session.created_at,
            )
        }
}

/// `session` and `init` open a conversation on the peer's keys: an ephemeral key was drawn, the
/// session is a new one on the secret that it gives, and `init` is what the peer needs to find the
/// same secret.
pub open spec fn opens_with(
    x_priv: Seq<u8>,
    my_fp: Seq<char>,
    peer_fp: Seq<char>,
    keys: PeerKeysView,
    session: SessionView,
    init: InitKeysView,
) -> bool {
    exists|ek_priv: Seq<u8>|
        {
            &&& ek_priv.len() == KEY_LEN
            &&& #[trigger] initiated(x_priv, my_fp, peer_fp, keys, ek_priv) matches Ok(t)
            &&& is_new_session(session, t.0, keys.spk)
            &&& init == InitKeysView { ek_pub: t.1, spk_id: t.2, opk_id: t.3 }
        }
}

/// Opens a conversation with a peer: checks the bundle, agrees on a secret and starts a session.
/// The session reads the messages that it sends to itself, where the peer is oneself.
pub fn open_conversation(
    my_x_priv: &[u8; 32],
    my_fp: &str,
    peer_fp: &str,
    bundle: &Bundle,
) -> (r: Result<(Session, InitKeys), MeshError>)
    ensures
        checked_keys(peer_fp@, bundle@) matches Err(e) ==> r == Err::<(Session, InitKeys), _>(e),
        checked_keys(peer_fp@, bundle@) matches Ok(keys) ==> match r {
            Ok((session, init)) => opens_with(
                my_x_priv@,
                my_fp@,
                peer_fp@,
                keys,
                session@,
                init@,
            ),
            Err(e) => {
                ||| e == MeshError::NoRandomness
                ||| e == MeshError::NoClock
                ||| exists|ek_priv: Seq<u8>|
                    #[trigger] initiated(my_x_priv@, my_fp@, peer_fp@, keys, ek_priv) == Err::<
                        (Seq<u8>, Seq<u8>, u32, u32),
                        MeshError,
                    >(e)
            },
        },
        r matches Ok((session, init)) ==> reads_itself(session@),
{
    let keys = check_bundle(peer_fp, bundle)?;
    let mut ek_priv = match random_array::<32>() {
        Some(k) => k,
        None => {
            return Err(MeshError::NoRandomness);
        },
    };
    let ghost ek = ek_priv@;
    let agreed = x3dh_initiate(my_x_priv, my_fp, peer_fp, &keys, &ek_priv);
    wipe_key(&mut ek_priv);
    let (secret, ek_pub, spk_id, opk_id) = match agreed {
        Ok(t) => t,
        Err(e) => {
            assert(initiated(my_x_priv@, my_fp@, peer_fp@, keys@, ek) == Err::<
                (Seq<u8>, Seq<u8>, u32, u32),
                MeshError,
            >(e));
            return Err(e);
        },
    };
    let mut sk = secret;
    let started = init_session_from_x3dh(sk.as_slice(), keys.spk.as_slice());
    wipe(&mut sk);
    let session = started?;
    let init = InitKeys { ek_pub, spk_id, opk_id };
    proof {
        assert(initiated(my_x_priv@, my_fp@, peer_fp@, keys@, ek) is Ok);
    }
    Ok((session, init))
}

/// Messages to oneself arrive: the first message of a new session, on whatever secret and whatever
/// ratchet key of the peer, is read by that session where its sender is the reader.
pub proof fn law_note_to_self(
    s: SessionView,
    sk: Seq<u8>,
    peer_dh: Seq<u8>,
    after: SessionView,
    m: DrView,
    body: Seq<u8>,
    my_fp: Seq<char>,
    fresh: Seq<u8>,
)
    requires
        is_new_session(s, sk, peer_dh),
        start_keys_sized(sk),
        sealed_for(s, after, m, body),
        hex_text(m.sender_fp) == my_fp,
    ensures
        received(after, m, my_fp, fresh) matches Ok(ReceivedView::Delivered {
            session,
            plaintext,
            from_skipped,
        }) && plaintext == body && !from_skipped && reads_itself(session),
{
    broadcast use law_b64_reads_back;

    let dh_priv = choose|p: Seq<u8>|
        {
            &&& p.len() == KEY_LEN
            &&& s == #[trigger] session_start(sk, peer_dh, p, x25519_public(p), s.created_at)
        };
    law_new_session_reads_itself(sk, peer_dh, dh_priv, s.created_at);
    law_message_to_oneself(s, after, m, body, my_fp, fresh);
}

// ---------------------------------------------------------------- accepting

/// `session` is the session of one who accepted a conversation on the secret `sk` with the peer's
/// ratchet key `peer_dh`, with an own ratchet pair that belongs together.
pub open spec fn is_accepted_session(session: SessionView, sk: Seq<u8>, peer_dh: Seq<u8>) -> bool {
    exists|dh_priv: Seq<u8>|
        {
            &&& dh_priv.len() == KEY_LEN
            &&& session == #[trigger] session_accepted(
                sk,
                peer_dh,
                dh_priv,
                x25519_public(dh_priv),
                session.created_at,
            )
        }
}

proof fn lemma_first_message(
    a: SessionView,
    after: SessionView,
    m: DrView,
    body: Seq<u8>,
    b: SessionView,
    sk: Seq<u8>,
    peer_dh: Seq<u8>,
    my_fp: Seq<char>,
    fresh: Seq<u8>,
)
    requires
        is_new_session(a, sk, peer_dh),
        is_accepted_session(b, sk, m.dh_pub),
        start_keys_sized(sk),
        sealed_for(a, after, m, body),
    ensures
        starts_conversation(received(b, m, my_fp, fresh), after, body),
{
    let a_priv = choose|p: Seq<u8>|
        {
            &&& p.len() == KEY_LEN
            &&& a == #[trigger] session_start(sk, peer_dh, p, x25519_public(p), a.created_at)
        };
    let b_priv = choose|p: Seq<u8>|
        {
            &&& p.len() == KEY_LEN
            &&& b == #[trigger] session_accepted(sk, m.dh_pub, p, x25519_public(p), b.created_at)
        };
    law_first_message(
        sk,
        peer_dh,
        a_priv,
        b_priv,
        a.created_at,
        b.created_at,
        after,
        m,
        body,
        my_fp,
        fresh,
    );
}

/// `m` is the first message of a conversation that its sender opened with `peer_fp`, on the keys
/// `keys`, by `init`; it holds `body`, and `after` is the sender's session afterwards.
pub open spec fn first_message(
    m: DrView,
    peer_fp: Seq<char>,
    keys: PeerKeysView,
    init: InitKeysView,
    x_priv: Seq<u8>,
    sender_fp: Seq<char>,
    after: SessionView,
    body: Seq<u8>,
) -> bool {
    exists|a: SessionView|
        {
            &&& #[trigger] opens_with(x_priv, sender_fp, peer_fp, keys, a, init)
            &&& sealed_for(a, after, m, body)
            &&& x_priv.len() == KEY_LEN
            &&& m.sender_x == x25519_public(x_priv)
            &&& fp_bytes(sender_fp) == Ok::<Seq<u8>, MeshError>(m.sender_fp)
        }
}

/// Accepts a conversation that a message opens: agrees on the secret from the texts of the prekey
/// files and starts a session with the sender's ratchet key, without a sending chain. Where the
/// sender opened the conversation on the public keys of these prekeys and sent the message on it,
/// the message is read, and the two sessions then agree.
pub fn accept_session(
    my_x_priv: &[u8; 32],
    my_fp: &str,
    m: &DrMessage,
    init: &InitKeys,
    spk_file: Option<&str>,
    opk_file: Option<&str>,
) -> (r: Result<Session, MeshError>)
    ensures
        match responded(
            my_x_priv@,
            my_fp@,
            hex_text(m.sender_fp@),
            m.sender_x@,
            init.ek_pub@,
            init.spk_id,
            init.opk_id,
            opt_view(spk_file),
            opt_view(opk_file),
        ) {
            Err(e) => r == Err::<Session, MeshError>(e),
            Ok(sk) => match r {
                Ok(session) => is_accepted_session(session@, sk, m.dh_pub@),
                Err(e) => e == MeshError::NoRandomness || e == MeshError::NoClock,
            },
        },
        r matches Ok(session) ==> forall|
            peer_fp: Seq<char>,
            x_priv: Seq<u8>,
            sender_fp: Seq<char>,
            after: SessionView,
            body: Seq<u8>,
            fresh: Seq<u8>,
        |
            lowered(peer_fp) == my_fp@ && #[trigger] first_message(
                m@,
                peer_fp,
                published_keys(
                    my_x_priv@,
                    stored_prekey(opt_view(spk_file))->Ok_0,
                    stored_opk(init.opk_id, opt_view(opk_file))->Ok_0,
                    init.spk_id,
                    init.opk_id,
                ),
                init@,
                x_priv,
                sender_fp,
                after,
                body,
            ) ==> starts_conversation(
                #[trigger] received(session@, m@, my_fp@, fresh),
                after,
                body,
            ),
{
    proof {
        law_fingerprint_round_trip(m.sender_fp@);
    }
    let sender_fp = fp_from_bytes(&m.sender_fp);
    let mut sk = x3dh_bob(
        my_x_priv,
        my_fp,
        sender_fp.as_str(),
        &m.sender_x,
        &init.ek_pub,
        init.spk_id,
        init.opk_id,
        spk_file,
        opk_file,
    )?;
    let ghost secret = sk@;
    let (dh_priv, dh_pub, now) = match (generate_dh_keypair(), now_secs()) {
        (Ok((private, public)), Ok(now)) => (private, public, now),
        (Err(e), _) => {
            wipe(&mut sk);
            return Err(e);
        },
        (_, Err(e)) => {
            wipe(&mut sk);
            return Err(e);
        },
    };
    let session = start_accepted(sk.as_slice(), m.dh_pub.as_slice(), &dh_priv, &dh_pub, now);
    wipe(&mut sk);
    proof {
        assert(session@ == session_accepted(
            secret,
            m.dh_pub@,
            dh_priv@,
            x25519_public(dh_priv@),
            session.created_at,
        ));
        assert(is_accepted_session(session@, secret, m.dh_pub@));
        let keys = published_keys(
            my_x_priv@,
            stored_prekey(opt_view(spk_file))->Ok_0,
            stored_opk(init.opk_id, opt_view(opk_file))->Ok_0,
            init.spk_id,
            init.opk_id,
        );
        assert forall|
            peer_fp: Seq<char>,
            x_priv: Seq<u8>,
            sender_fp: Seq<char>,
            after: SessionView,
            body: Seq<u8>,
            fresh: Seq<u8>,
        |
            lowered(peer_fp) == my_fp@ && #[trigger] first_message(
                m@,
                peer_fp,
                keys,
                init@,
                x_priv,
                sender_fp,
                after,
                body,
            ) implies starts_conversation(
            #[trigger] received(session@, m@, my_fp@, fresh),
            after,
            body,
        ) by {
            let a = choose|a: SessionView|
                {
                    &&& #[trigger] opens_with(x_priv, sender_fp, peer_fp, keys, a, init@)
                    &&& sealed_for(a, after, m@, body)
                    &&& x_priv.len() == KEY_LEN
                    &&& m@.sender_x == x25519_public(x_priv)
                    &&& fp_bytes(sender_fp) == Ok::<Seq<u8>, MeshError>(m@.sender_fp)
                };
            let ek_priv = choose|ek_priv: Seq<u8>|
                {
                    &&& ek_priv.len() == KEY_LEN
                    &&& #[trigger] initiated(x_priv, sender_fp, peer_fp, keys, ek_priv) matches Ok(
                        t,
                    )
                    &&& is_new_session(a, t.0, keys.spk)
                    &&& init@ == InitKeysView { ek_pub: t.1, spk_id: t.2, opk_id: t.3 }
                };
            let t = initiated(x_priv, sender_fp, peer_fp, keys, ek_priv)->Ok_0;
            assert(init.ek_pub@ == x25519_public(ek_priv));
            assert(t.0 == secret);
            lemma_first_message(
                a,
                after,
                m@,
                body,
                session@,
                secret,
                keys.spk,
                my_fp@,
                fresh,
            );
        }
    }
    Ok(session)
}

// ---------------------------------------------------------------- deciding

/// What a received message needs.
#[derive(Debug)]
pub enum Delivery {
    /// Nothing: its number is over the limit, and it is dropped.
    TooFar,
    /// The session that it belongs to.
    Use(Session),
    /// A key agreement first: it opens a conversation.
    Accept(InitKeys),
    /// A session that does not exist: it is dropped.
    NoSession,
}

/// Decides what a received message needs: the stored session, if that is not too old, or a key
/// agreement.
pub fn plan_delivery(stored: Option<Session>, m: &DrMessage, now: i64) -> (r: Delivery)
    ensures
        r == (if m.n > MAX_MESSAGE_NUMBER {
            Delivery::TooFar
        } else {
            match (stored, m.init) {
                (Some(s), _) if !timed_out(s.created_at, now) => Delivery::Use(s),
                (_, Some(init)) => Delivery::Accept(init),
                (_, None) => Delivery::NoSession,
            }
        }),
        r is TooFar <==> m.n > 10000,
        m.n <= 10000 ==> (stored matches Some(s) ==> (now <= s.created_at + 7 * 24 * 60 * 60
            <==> r == Delivery::Use(s))),
        r matches Delivery::Use(s) ==> stored == Some(s),
        r matches Delivery::Accept(init) ==> m.init == Some(init),
        r is NoSession ==> m.init is None,
        m.n <= 10000 && stored is None ==> (m.init is Some <==> r is Accept),
{
    if m.n > MAX_MESSAGE_NUMBER {
        return Delivery::TooFar;
    }
    match live_session(stored, now) {
        Some(s) => Delivery::Use(s),
        None => match m.init {
            Some(init) => Delivery::Accept(init),
            None => Delivery::NoSession,
        },
    }
}

} // verus!
