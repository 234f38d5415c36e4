//! Sending the messages of a session, and what the peer makes of them.
use vstd::prelude::*;
use vstd::string::*;

use crate::bytes::{opt_view, read_array32, KEY_LEN};
use crate::encoding::{b64_encode, fp_to_bytes};
use crate::envelope::{DrMessage, InitKeys, NONCE_LEN};
use crate::error::MeshError;
use crate::json::write_object;
use crate::kdf::{generate_dh_keypair, kdf_ck, kdf_rk, xenc};
use crate::paths::now_secs;
use crate::primitives::{
    random_array, wipe, wipe_key, x25519_public_key, x25519_shared, TAG_LEN,
};
use crate::receiving::MAX_MESSAGE_NUMBER;
use crate::session::Session;
use crate::skipped::MAX_SKIPPED_KEYS;

verus! {

use vstd::utf8::encode_utf8;
use crate::bytes::res_view;
use crate::b64::{b64url_text, lemma_b64_len};
use crate::encoding::{decoded, decoded_key, fp_bytes, law_b64_reads_back};
use crate::envelope::{
    classified,
    dr_wire,
    law_dr_round_trip,
    DrView,
    InboundView,
    InitKeysView,
};
use crate::json::{
    distinct_names,
    json_number,
    json_object,
    json_text,
    number_members,
    numbers_bound,
    text_members,
    texts_bound,
};
use crate::kdf::{
    aead_fits,
    chain_after,
    message_key,
    next_chain,
    next_root,
    root_chain,
    xopened,
    xsealed,
};
use crate::primitives::{hex_text, x25519, x25519_public};
use crate::receiving::{
    chain_end,
    ending_chain,
    key_kept,
    lemma_passed_over_names,
    lemma_step_absent,
    law_no_step_for_an_own_message,
    law_step_for_a_new_key,
    new_ratchet_key,
    overtaken_keys_kept,
    passed_over,
    ratcheted,
    received,
    skip_name,
    takes_step,
    ReceivedView,
};
use crate::session::{session_accepted, session_start, start_keys_sized, SessionView};
use crate::skipped::{
    found,
    lemma_stored_all_absent,
    lemma_without_absent,
    stored_all,
    without,
};
use crate::text::lemma_utf8_len;

// ---------------------------------------------------------------- the sending chain

/// The peer's ratchet key, which a new sending chain starts from.
pub open spec fn peer_ratchet_key(s: SessionView) -> Result<Seq<u8>, MeshError> {
    match s.dh_recv_pub_b64 {
        None => Err(MeshError::NoRatchetKey),
        Some(text) => decoded_key(text, MeshError::DhReceivedLength),
    }
}

/// The session with a new sending chain, from the peer's ratchet key and a fresh private key.
pub open spec fn send_ratcheted(s: SessionView, fresh: Seq<u8>) -> Result<SessionView, MeshError> {
    match peer_ratchet_key(s) {
        Err(e) => Err(e),
        Ok(peer) => match decoded(s.root_key_b64) {
            Err(e) => Err(e),
            Ok(rk) => {
                let dh_out = x25519(fresh, peer);
                Ok(
                    SessionView {
                        root_key_b64: b64url_text(next_root(rk, dh_out)),
                        chain_send_b64: Some(b64url_text(root_chain(rk, dh_out))),
                        dh_send_priv_b64: b64url_text(fresh),
                        dh_send_pub_b64: b64url_text(x25519_public(fresh)),
                        pn: s.n_send,
                        n_send: 0,
                        ..s
                    },
                )
            },
        },
    }
}

/// Starts a new sending chain with a fresh private key.
pub fn ratchet_send(sess: Session, fresh: &[u8; 32]) -> (r: Result<Session, MeshError>)
    ensures
        res_view(r) == send_ratcheted(sess@, fresh@),
{
    let peer = match sess.dh_recv_pub_bytes()? {
        Some(key) => key,
        None => {
            return Err(MeshError::NoRatchetKey);
        },
    };
    let rk = sess.root_key()?;
    let dh_out = x25519_shared(fresh, &peer);
    let (new_rk, new_chain) = kdf_rk(rk.as_slice(), dh_out.as_slice())?;
    let new_pub = x25519_public_key(fresh);
    let next = Session {
        root_key_b64: b64_encode(new_rk.as_slice()),
        chain_send_b64: Some(b64_encode(new_chain.as_slice())),
        chain_recv_b64: sess.chain_recv_b64,
        dh_send_priv_b64: b64_encode(fresh.as_slice()),
        dh_send_pub_b64: b64_encode(new_pub.as_slice()),
        dh_recv_pub_b64: sess.dh_recv_pub_b64,
        n_send: 0,
        n_recv: sess.n_recv,
        pn: sess.n_send,
        header_key_b64: sess.header_key_b64,
        skipped_keys: sess.skipped_keys,
        created_at: sess.created_at,
    };
    Ok(next)
}

/// Makes sure that there is a sending chain: a session without one gets one, with a private key
/// that is drawn here.
pub fn ready_to_send(sess: Session) -> (r: Result<Session, MeshError>)
    ensures
        sess@.chain_send_b64 is Some ==> res_view(r) == Ok::<SessionView, MeshError>(sess@),
        sess@.chain_send_b64 is None ==> (peer_ratchet_key(sess@) matches Err(e) ==> res_view(r)
            == Err::<SessionView, MeshError>(e)),
        sess@.chain_send_b64 is None && peer_ratchet_key(sess@) is Ok ==> res_view(r) == Err::<
            SessionView,
            MeshError,
        >(MeshError::NoRandomness) || exists|fresh: Seq<u8>|
            fresh.len() == KEY_LEN && res_view(r) == #[trigger] send_ratcheted(sess@, fresh),
{
    if sess.chain_send_b64.is_some() {
        return Ok(sess);
    }
    match sess.dh_recv_pub_bytes()? {
        Some(_) => {
            let (fresh, _public) = generate_dh_keypair()?;
            ratchet_send(sess, &fresh)
        },
        None => Err(MeshError::NoRatchetKey),
    }
}

// ---------------------------------------------------------------- one message

/// What the body of a message takes at most, the text and the sender apart.
pub const BODY_BASE: usize = 1000;

/// The header of a message: the ratchet key and the two numbers, as JSON.
pub open spec fn header_text(dh: Seq<u8>, pn: u32, n: u32) -> Seq<char> {
    json_object(
        seq![("dh"@, b64url_text(dh))],
        seq![("pn"@, pn as int), ("n"@, n as int)],
    )
}

/// The body of a message: the text, the sender, the time and the two numbers, as JSON.
pub open spec fn body_text(text: Seq<char>, from: Seq<char>, ts: i64, n: u32, pn: u32) -> Seq<
    char,
> {
    json_object(
        seq![("text"@, text), ("from"@, from)],
        seq![("ts"@, ts as int), ("n"@, n as int), ("pn"@, pn as int)],
    )
}

/// The header of a message has three members and its body five, and no others.
pub proof fn law_members_of_a_message(
    dh: Seq<u8>,
    text: Seq<char>,
    from: Seq<char>,
    ts: i64,
    n: u32,
    pn: u32,
)
    ensures
        exists|texts: Seq<(Seq<char>, Seq<char>)>, numbers: Seq<(Seq<char>, int)>|
            {
                &&& header_text(dh, pn, n) == #[trigger] json_object(texts, numbers)
                &&& texts.len() == 1 && texts[0] == ("dh"@, b64url_text(dh))
                &&& numbers.len() == 2 && numbers[0] == ("pn"@, pn as int) && numbers[1] == (
                    "n"@,
                    n as int,
                )
            },
        exists|texts: Seq<(Seq<char>, Seq<char>)>, numbers: Seq<(Seq<char>, int)>|
            {
                &&& body_text(text, from, ts, n, pn) == #[trigger] json_object(texts, numbers)
                &&& texts.len() == 2 && texts[0] == ("text"@, text) && texts[1] == ("from"@, from)
                &&& numbers.len() == 3 && numbers[0] == ("ts"@, ts as int) && numbers[1] == (
                    "n"@,
                    n as int,
                ) && numbers[2] == ("pn"@, pn as int)
            },
{
    let texts = seq![("dh"@, b64url_text(dh))];
    let numbers = seq![("pn"@, pn as int), ("n"@, n as int)];
    assert(header_text(dh, pn, n) == json_object(texts, numbers));
    let texts = seq![("text"@, text), ("from"@, from)];
    let numbers = seq![("ts"@, ts as int), ("n"@, n as int), ("pn"@, pn as int)];
    assert(body_text(text, from, ts, n, pn) == json_object(texts, numbers));
}

/// Sends one message: the session afterwards and the message.
pub open spec fn outgoing(
    s: SessionView,
    my_fp: Seq<char>,
    my_x_pub: Seq<u8>,
    init: Option<InitKeysView>,
    text: Seq<char>,
    header_nonce: Seq<u8>,
    body_nonce: Seq<u8>,
    ts: i64,
) -> Result<(SessionView, DrView), MeshError> {
    if s.n_send == u32::MAX {
        Err(MeshError::CounterExhausted)
    } else {
        match s.chain_send_b64 {
            None => Err(MeshError::NoSendingChain),
            Some(chain) => match decoded(chain) {
                Err(e) => Err(e),
                Ok(ck) => match decoded_key(s.dh_send_pub_b64, MeshError::DhPublicLength) {
                    Err(e) => Err(e),
                    Ok(dh) => match decoded_key(s.header_key_b64, MeshError::HeaderKeyLength) {
                        Err(e) => Err(e),
                        Ok(hk) => match xsealed(
                            hk,
                            header_nonce,
                            encode_utf8(header_text(dh, s.pn, s.n_send)),
                            Seq::empty(),
                        ) {
                            Err(e) => Err(e),
                            Ok(header_ct) => match xsealed(
                                message_key(ck),
                                body_nonce,
                                encode_utf8(body_text(text, my_fp, ts, s.n_send, s.pn)),
                                header_ct,
                            ) {
                                Err(e) => Err(e),
                                Ok(body_ct) => match fp_bytes(my_fp) {
                                    Err(e) => Err(e),
                                    Ok(fp) => Ok(
                                        (
                                            SessionView {
                                                chain_send_b64: Some(b64url_text(next_chain(ck))),
                                                n_send: (s.n_send + 1) as u32,
                                                ..s
                                            },
                                            DrView {
                                                init,
                                                sender_fp: fp,
                                                sender_x: my_x_pub,
                                                dh_pub: dh,
                                                pn: s.pn,
                                                n: s.n_send,
                                                header_nonce,
                                                header_ct,
                                                body_nonce,
                                                body_ct,
                                            },
                                        ),
                                    ),
                                },
                            },
                        },
                    },
                },
            },
        }
    }
}

/// A session can send: it has not run out of numbers, its sending chain, its ratchet key and its
/// header key are sound, and the sender has a fingerprint.
pub open spec fn can_send(s: SessionView, my_fp: Seq<char>) -> bool {
    &&& s.n_send < u32::MAX
    &&& s.chain_send_b64 matches Some(text) && decoded(text) is Ok
    &&& decoded_key(s.dh_send_pub_b64, MeshError::DhPublicLength) is Ok
    &&& decoded_key(s.header_key_b64, MeshError::HeaderKeyLength) is Ok
    &&& fp_bytes(my_fp) is Ok
}

/// A text is short enough to be sent at all events: the body that holds it is within what can be
/// encrypted, even if every byte of it is escaped.
pub open spec fn text_fits(text: Seq<char>, my_fp: Seq<char>) -> bool {
    let most = BODY_BASE + 6 * encode_utf8(text).len() + 6 * encode_utf8(my_fp).len() + TAG_LEN;
    most <= 0x40_0000_0000 - 128 && most <= isize::MAX
}

/// Sending succeeds: a session that can send sends any text whose body can be encrypted. The
/// premise on the header is what `seal_message` finds of it.
pub proof fn law_sending_succeeds(
    s: SessionView,
    my_fp: Seq<char>,
    my_x_pub: Seq<u8>,
    init: Option<InitKeysView>,
    text: Seq<char>,
    header_nonce: Seq<u8>,
    body_nonce: Seq<u8>,
    ts: i64,
    dh: Seq<u8>,
)
    requires
        can_send(s, my_fp),
        decoded(s.dh_send_pub_b64) == Ok::<Seq<u8>, MeshError>(dh),
        encode_utf8(header_text(dh, s.pn, s.n_send)).len() <= 0xffff,
        encode_utf8(body_text(text, my_fp, ts, s.n_send, s.pn)).len() <= 0x40_0000_0000 - 128,
        encode_utf8(body_text(text, my_fp, ts, s.n_send, s.pn)).len() + TAG_LEN <= isize::MAX,
        0xffff + TAG_LEN <= isize::MAX,
    ensures
        outgoing(s, my_fp, my_x_pub, init, text, header_nonce, body_nonce, ts) matches Ok(sent) && {
            let (after, m) = sent;
            &&& m.n == s.n_send
            &&& m.pn == s.pn
            &&& m.init == init
            &&& fp_bytes(my_fp) == Ok::<Seq<u8>, MeshError>(m.sender_fp)
            &&& m.sender_x == my_x_pub
            &&& m.dh_pub == dh
            &&& m.header_nonce == header_nonce
            &&& m.body_nonce == body_nonce
            &&& after.n_send == s.n_send + 1
            &&& after.root_key_b64 == s.root_key_b64
            &&& after.header_key_b64 == s.header_key_b64
            &&& after.chain_recv_b64 == s.chain_recv_b64
            &&& after.dh_send_priv_b64 == s.dh_send_priv_b64
            &&& after.dh_send_pub_b64 == s.dh_send_pub_b64
            &&& after.dh_recv_pub_b64 == s.dh_recv_pub_b64
            &&& after.n_recv == s.n_recv
            &&& after.pn == s.pn
            &&& after.skipped_keys == s.skipped_keys
            &&& after.created_at == s.created_at
        },
{
}

/// Sending fails only where it must: the numbers have run out, there is no sending chain, a key of
/// the session is unsound, the sender has no fingerprint, or what is encrypted is too long.
pub proof fn law_sending_fails(
    s: SessionView,
    my_fp: Seq<char>,
    my_x_pub: Seq<u8>,
    init: Option<InitKeysView>,
    text: Seq<char>,
    header_nonce: Seq<u8>,
    body_nonce: Seq<u8>,
    ts: i64,
)
    ensures
        s.n_send == u32::MAX ==> outgoing(
            s,
            my_fp,
            my_x_pub,
            init,
            text,
            header_nonce,
            body_nonce,
            ts,
        ) == Err::<(SessionView, DrView), MeshError>(MeshError::CounterExhausted),
        s.n_send < u32::MAX && s.chain_send_b64 is None ==> outgoing(
            s,
            my_fp,
            my_x_pub,
            init,
            text,
            header_nonce,
            body_nonce,
            ts,
        ) == Err::<(SessionView, DrView), MeshError>(MeshError::NoSendingChain),
        outgoing(s, my_fp, my_x_pub, init, text, header_nonce, body_nonce, ts) is Ok ==> can_send(
            s,
            my_fp,
        ),
        outgoing(s, my_fp, my_x_pub, init, text, header_nonce, body_nonce, ts) == Err::<
            (SessionView, DrView),
            MeshError,
        >(MeshError::CounterExhausted) ==> s.n_send == u32::MAX,
{
}

/// The text of a message: the one that was given, or else what was piped in, or else a greeting.
pub fn message_text(given: Option<String>, piped: Option<String>) -> (r: String)
    ensures
        r@ == (match (given, piped) {
            (Some(text), _) => text@,
            (None, Some(text)) => text@,
            (None, None) => "hello v3"@,
        }),
{
    match (given, piped) {
        (Some(text), _) => text,
        (None, Some(text)) => text,
        (None, None) => "hello v3".to_owned(),
    }
}

fn header_json(dh: &[u8; 32], pn: u32, n: u32) -> (r: String)
    ensures
        r@ == header_text(dh@, pn, n),
        json_text(encode_utf8(r@), "dh"@) == Some(b64url_text(dh@)),
        json_number(encode_utf8(r@), "pn"@) == Some(pn as u64),
        json_number(encode_utf8(r@), "n"@) == Some(n as u64),
        encode_utf8(r@).len() <= 2000,
{
    let mut texts: Vec<(String, String)> = Vec::new();
    texts.push(("dh".to_owned(), b64_encode(dh.as_slice())));
    let mut numbers: Vec<(String, i64)> = Vec::new();
    numbers.push(("pn".to_owned(), pn as i64));
    numbers.push(("n".to_owned(), n as i64));
    proof {
        let t = text_members(texts@);
        let k = number_members(numbers@);
        assert(t =~= seq![("dh"@, b64url_text(dh@))]);
        assert(k =~= seq![("pn"@, pn as int), ("n"@, n as int)]);
        reveal_strlit("dh");
        reveal_strlit("pn");
        reveal_strlit("n");
        assert("dh"@[0] != "pn"@[0]);
        assert("dh"@.len() == 2 && "pn"@.len() == 2 && "n"@.len() == 1);
        assert(distinct_names(t, k));
        lemma_utf8_len("dh"@);
        lemma_utf8_len("pn"@);
        lemma_utf8_len("n"@);
        lemma_utf8_len(b64url_text(dh@));
        lemma_b64_len(dh@, true);
        reveal_with_fuel(texts_bound, 2);
        reveal_with_fuel(numbers_bound, 3);
    }
    let r = write_object(&texts, &numbers);
    assert(texts@[0].0@ == "dh"@);
    assert(numbers@[0].0@ == "pn"@ && numbers@[1].0@ == "n"@);
    r
}

fn body_json(text: &str, from: &str, ts: i64, n: u32, pn: u32) -> (r: String)
    ensures
        r@ == body_text(text@, from@, ts, n, pn),
        json_text(encode_utf8(r@), "text"@) == Some(text@),
        json_text(encode_utf8(r@), "from"@) == Some(from@),
        json_number(encode_utf8(r@), "n"@) == Some(n as u64),
        json_number(encode_utf8(r@), "pn"@) == Some(pn as u64),
        ts >= 0 ==> json_number(encode_utf8(r@), "ts"@) == Some(ts as u64),
        encode_utf8(r@).len() <= BODY_BASE + 6 * encode_utf8(text@).len() + 6 * encode_utf8(
            from@,
        ).len(),
{
    let mut texts: Vec<(String, String)> = Vec::new();
    texts.push(("text".to_owned(), text.to_owned()));
    texts.push(("from".to_owned(), from.to_owned()));
    let mut numbers: Vec<(String, i64)> = Vec::new();
    numbers.push(("ts".to_owned(), ts));
    numbers.push(("n".to_owned(), n as i64));
    numbers.push(("pn".to_owned(), pn as i64));
    proof {
        reveal_strlit("text");
        reveal_strlit("from");
        reveal_strlit("ts");
        reveal_strlit("n");
        reveal_strlit("pn");
        assert(text_members(texts@) =~= seq![("text"@, text@), ("from"@, from@)]);
        assert(number_members(numbers@) =~= seq![
            ("ts"@, ts as int),
            ("n"@, n as int),
            ("pn"@, pn as int),
        ]);
        assert("text"@[0] != "from"@[0]);
        assert("ts"@[0] != "pn"@[0]);
        assert("text"@.len() == 4 && "from"@.len() == 4);
        assert("ts"@.len() == 2 && "pn"@.len() == 2 && "n"@.len() == 1);
        assert(text_members(texts@)[0].0 != text_members(texts@)[1].0);
        assert(distinct_names(text_members(texts@), number_members(numbers@)));
        lemma_utf8_len("text"@);
        lemma_utf8_len("from"@);
        lemma_utf8_len("ts"@);
        lemma_utf8_len("n"@);
        lemma_utf8_len("pn"@);
        reveal_with_fuel(texts_bound, 3);
        reveal_with_fuel(numbers_bound, 4);
    }
    let r = write_object(&texts, &numbers);
    assert(texts@[0].0@ == "text"@ && texts@[1].0@ == "from"@);
    assert(numbers@[0].0@ == "ts"@);
    assert(numbers@[1].0@ == "n"@ && numbers@[2].0@ == "pn"@);
    r
}

// ---------------------------------------------------------------- what the peer makes of it

/// `m` is the next message that the session `a` sends, `after` is the session afterwards, and the
/// message holds `body`: the key of its number opens it.
pub open spec fn sealed_for(a: SessionView, after: SessionView, m: DrView, body: Seq<u8>) -> bool {
    let ck = decoded(a.chain_send_b64->0)->Ok_0;
    &&& a.n_send < u32::MAX
    &&& a.chain_send_b64 is Some
    &&& decoded(a.chain_send_b64->0) is Ok
    &&& decoded_key(a.dh_send_pub_b64, MeshError::DhPublicLength) == Ok::<Seq<u8>, MeshError>(
        m.dh_pub,
    )
    &&& m.n == a.n_send
    &&& m.pn == a.pn
    &&& after == SessionView {
        chain_send_b64: Some(b64url_text(next_chain(ck))),
        n_send: (a.n_send + 1) as u32,
        ..a
    }
    &&& xopened(message_key(ck), m.body_nonce, m.body_ct, m.header_ct) == Some(body)
}

/// `b` can read what `a` sends next: it knows the ratchet key of `a`, its receiving chain stands
/// where the sending chain of `a` stood some messages ago or stands now, and it keeps no keys for
/// messages to come.
pub open spec fn in_step(a: SessionView, b: SessionView) -> bool {
    let dh = decoded_key(a.dh_send_pub_b64, MeshError::DhPublicLength);
    &&& a.chain_send_b64 is Some
    &&& decoded(a.chain_send_b64->0) is Ok
    &&& dh is Ok
    &&& b.chain_recv_b64 is Some
    &&& decoded(b.chain_recv_b64->0) is Ok
    &&& b.n_recv <= a.n_send
    &&& decoded(a.chain_send_b64->0)->Ok_0 == chain_after(
        decoded(b.chain_recv_b64->0)->Ok_0,
        (a.n_send - b.n_recv) as nat,
    )
    &&& b.dh_recv_pub_b64 is Some
    &&& decoded(b.dh_recv_pub_b64->0) == dh
    &&& decoded_key(b.header_key_b64, MeshError::HeaderKeyLength) is Ok
    &&& forall|n: u32|
        b.n_recv <= n ==> found(b.skipped_keys, #[trigger] skip_name(dh->Ok_0, n)) is None
}

/// Two private keys agree: either of them gives one secret with the public key of the other.
pub open spec fn dh_agrees(one: Seq<u8>, other: Seq<u8>) -> bool {
    x25519(one, x25519_public(other)) == x25519(other, x25519_public(one))
}

/// `b` can answer `a`: it has no sending chain of its own yet, both hold the same root key, and `b`
/// knows the ratchet key whose private half `a` holds.
pub open spec fn can_answer(b: SessionView, a: SessionView) -> bool {
    let a_priv = decoded_key(a.dh_send_priv_b64, MeshError::DhPrivateLength);
    let a_pub = Ok::<Seq<u8>, MeshError>(x25519_public(a_priv->Ok_0));
    &&& b.chain_send_b64 is None
    &&& decoded(b.root_key_b64) is Ok
    &&& decoded(a.root_key_b64) == decoded(b.root_key_b64)
    &&& a_priv is Ok
    &&& decoded_key(a.dh_send_pub_b64, MeshError::DhPublicLength) == a_pub
    &&& peer_ratchet_key(b) == a_pub
    &&& decoded_key(a.header_key_b64, MeshError::HeaderKeyLength) is Ok
    &&& decoded_key(b.header_key_b64, MeshError::HeaderKeyLength) is Ok
}

/// The first session of the one who opens a conversation and the first session of the one who
/// accepts it are in step, once both have the same secret and the second knows the ratchet key of
/// the first; and the second can answer.
pub proof fn law_first_contact(
    sk: Seq<u8>,
    peer_spk: Seq<u8>,
    a_priv: Seq<u8>,
    b_priv: Seq<u8>,
    a_now: i64,
    b_now: i64,
)
    requires
        a_priv.len() == KEY_LEN,
        x25519_public(a_priv).len() == KEY_LEN,
        start_keys_sized(sk),
    ensures
        in_step(
            session_start(sk, peer_spk, a_priv, x25519_public(a_priv), a_now),
            session_accepted(sk, x25519_public(a_priv), b_priv, x25519_public(b_priv), b_now),
        ),
        can_answer(
            session_accepted(sk, x25519_public(a_priv), b_priv, x25519_public(b_priv), b_now),
            session_start(sk, peer_spk, a_priv, x25519_public(a_priv), a_now),
        ),
{
    broadcast use law_b64_reads_back;

    let b = session_accepted(sk, x25519_public(a_priv), b_priv, x25519_public(b_priv), b_now);
    assert(b.skipped_keys.len() == 0);
}

/// The first message of a conversation arrives, and the two sessions then hold the same root key,
/// header key, chain and ratchet key, and count the same.
pub proof fn law_first_message(
    sk: Seq<u8>,
    peer_spk: Seq<u8>,
    a_priv: Seq<u8>,
    b_priv: Seq<u8>,
    a_now: i64,
    b_now: i64,
    after: SessionView,
    m: DrView,
    body: Seq<u8>,
    my_fp: Seq<char>,
    fresh: Seq<u8>,
)
    requires
        a_priv.len() == KEY_LEN,
        start_keys_sized(sk),
        sealed_for(
            session_start(sk, peer_spk, a_priv, x25519_public(a_priv), a_now),
            after,
            m,
            body,
        ),
    ensures
        starts_conversation(
            received(
                session_accepted(sk, m.dh_pub, b_priv, x25519_public(b_priv), b_now),
                m,
                my_fp,
                fresh,
            ),
            after,
            body,
        ),
{
    broadcast use law_b64_reads_back;

    let a = session_start(sk, peer_spk, a_priv, x25519_public(a_priv), a_now);
    let b = session_accepted(sk, m.dh_pub, b_priv, x25519_public(b_priv), b_now);
    assert(m.dh_pub == x25519_public(a_priv));
    law_first_contact(sk, peer_spk, a_priv, b_priv, a_now, b_now);
    law_delivery(a, after, m, body, b, my_fp, fresh);
}

/// What was received is the first message of a conversation: it holds `body`, and the session
/// agrees with the sender's session `after` in the root key, the header key, the chain, the ratchet
/// key and the count, can answer it and is in step with it.
pub open spec fn starts_conversation(
    r: Result<ReceivedView, MeshError>,
    after: SessionView,
    body: Seq<u8>,
) -> bool {
    &&& r matches Ok(ReceivedView::Delivered { session, plaintext, from_skipped })
    &&& plaintext == body
    &&& !from_skipped
    &&& session.root_key_b64 == after.root_key_b64
    &&& session.header_key_b64 == after.header_key_b64
    &&& session.chain_recv_b64 == after.chain_send_b64
    &&& session.dh_recv_pub_b64 == Some(after.dh_send_pub_b64)
    &&& session.n_recv == 1
    &&& after.n_send == 1
    &&& in_step(after, session)
    &&& can_answer(session, after)
}

/// `m` is the first message on the chain with which `b` answers `a`, holding `body`: `b_fresh` is
/// the private key that it starts the chain with, and `after` is its session afterwards. `a` sees a
/// ratchet key that is new to it: neither its own nor the one it knows, and not in a message of its
/// own, and it keeps no keys under it.
pub open spec fn replies(
    a: SessionView,
    m: DrView,
    my_fp: Seq<char>,
    b: SessionView,
    b_fresh: Seq<u8>,
    after: SessionView,
    body: Seq<u8>,
) -> bool {
    &&& can_answer(b, a)
    &&& b_fresh.len() == KEY_LEN
    &&& sealed_for(send_ratcheted(b, b_fresh)->Ok_0, after, m, body)
    &&& new_ratchet_key(a, m, my_fp)
    &&& forall|n: u32| found(a.skipped_keys, #[trigger] skip_name(m.dh_pub, n)) is None
}

/// What was received is a reply that holds `body`; the session is in step with the sender's session
/// `after`, and can answer it in turn.
pub open spec fn reads_reply(
    r: Result<ReceivedView, MeshError>,
    after: SessionView,
    body: Seq<u8>,
) -> bool {
    &&& r matches Ok(ReceivedView::Delivered { session, plaintext, from_skipped })
    &&& plaintext == body
    &&& !from_skipped
    &&& session.root_key_b64 == after.root_key_b64
    &&& in_step(after, session)
    &&& can_answer(session, after)
}

/// A reply takes a step of the ratchet on both sides and is read, and then the turn is the other
/// side's: the one who opened a conversation and the one who accepted it, and after each reply the
/// two in turn, can go on for ever. The premise on the two private keys is what `ratchet_receive`
/// gives.
pub proof fn law_reply(
    a: SessionView,
    b: SessionView,
    b_fresh: Seq<u8>,
    after: SessionView,
    m: DrView,
    body: Seq<u8>,
    my_fp: Seq<char>,
    a_fresh: Seq<u8>,
)
    requires
        replies(a, m, my_fp, b, b_fresh, after, body),
        dh_agrees(decoded_key(a.dh_send_priv_b64, MeshError::DhPrivateLength)->Ok_0, b_fresh),
    ensures
        reads_reply(received(a, m, my_fp, a_fresh), after, body),
{
    broadcast use law_b64_reads_back;

    let turned = send_ratcheted(b, b_fresh)->Ok_0;
    assert(chain_after(decoded(turned.chain_send_b64->0)->Ok_0, 0) == decoded(
        turned.chain_send_b64->0,
    )->Ok_0);
    assert(sent_more(turned, 0) =~= turned);
    law_reply_overtaken(a, b, b_fresh, 0, after, m, body, my_fp, a_fresh);
}

/// A session after `count` more messages were sent on its chain.
pub open spec fn sent_more(s: SessionView, count: nat) -> SessionView {
    SessionView {
        chain_send_b64: Some(
            b64url_text(chain_after(decoded(s.chain_send_b64->0)->Ok_0, count)),
        ),
        n_send: (s.n_send + count) as u32,
        ..s
    }
}

/// Sending one message after `count` others is sending one more.
pub proof fn law_sending_adds_up(
    s: SessionView,
    count: nat,
    after: SessionView,
    m: DrView,
    body: Seq<u8>,
)
    requires
        s.n_send + count < u32::MAX,
        sealed_for(sent_more(s, count), after, m, body),
    ensures
        m.n == s.n_send + count,
        after == sent_more(s, count + 1),
{
    broadcast use law_b64_reads_back;

    let ck = decoded(s.chain_send_b64->0)->Ok_0;
    assert(chain_after(ck, count + 1) == next_chain(chain_after(ck, count)));
}

/// A reply is read whichever message of its chain arrives first: `count` messages were sent on the
/// new chain before `m`, and none of them has arrived. The premise on the two private keys is what
/// `ratchet_receive` gives.
pub proof fn law_reply_overtaken(
    a: SessionView,
    b: SessionView,
    b_fresh: Seq<u8>,
    count: nat,
    after: SessionView,
    m: DrView,
    body: Seq<u8>,
    my_fp: Seq<char>,
    a_fresh: Seq<u8>,
)
    requires
        can_answer(b, a),
        b_fresh.len() == KEY_LEN,
        count <= MAX_MESSAGE_NUMBER,
        sealed_for(sent_more(send_ratcheted(b, b_fresh)->Ok_0, count), after, m, body),
        new_ratchet_key(a, m, my_fp),
        forall|n: u32| found(a.skipped_keys, #[trigger] skip_name(m.dh_pub, n)) is None,
        dh_agrees(decoded_key(a.dh_send_priv_b64, MeshError::DhPrivateLength)->Ok_0, b_fresh),
    ensures
        reads_reply(received(a, m, my_fp, a_fresh), after, body),
{
    broadcast use law_b64_reads_back;

    let turned = send_ratcheted(b, b_fresh)->Ok_0;
    let x = sent_more(turned, count);
    let t = ratcheted(a, m.dh_pub, m.pn, a_fresh)->Ok_0;
    law_step_for_a_new_key(a, m, my_fp);
    assert(m.dh_pub == x25519_public(b_fresh));
    assert(x.root_key_b64 == t.root_key_b64);
    assert forall|n: u32| found(t.skipped_keys, #[trigger] skip_name(m.dh_pub, n)) is None by {
        lemma_step_absent(a, m, my_fp, n);
    }
    assert(in_step(x, t));
    law_delivery(x, after, m, body, t, my_fp, a_fresh);
}

/// A session reads the messages that it sends to itself: its receiving chain stands where its
/// sending chain stood some messages ago or stands now, and it keeps no keys for messages to come.
pub open spec fn reads_itself(s: SessionView) -> bool {
    let dh = decoded_key(s.dh_send_pub_b64, MeshError::DhPublicLength);
    &&& s.chain_send_b64 is Some
    &&& decoded(s.chain_send_b64->0) is Ok
    &&& s.chain_recv_b64 is Some
    &&& decoded(s.chain_recv_b64->0) is Ok
    &&& s.n_recv <= s.n_send
    &&& decoded(s.chain_send_b64->0)->Ok_0 == chain_after(
        decoded(s.chain_recv_b64->0)->Ok_0,
        (s.n_send - s.n_recv) as nat,
    )
    &&& dh is Ok
    &&& s.dh_recv_pub_b64 matches Some(text) ==> decoded(text) is Ok
    &&& decoded_key(s.header_key_b64, MeshError::HeaderKeyLength) is Ok
    &&& forall|n: u32|
        s.n_recv <= n ==> found(s.skipped_keys, #[trigger] skip_name(dh->Ok_0, n)) is None
}

/// A new session reads the messages that it sends to itself, whatever ratchet key it has of the
/// peer.
pub proof fn law_new_session_reads_itself(
    sk: Seq<u8>,
    peer_dh: Seq<u8>,
    dh_priv: Seq<u8>,
    now: i64,
)
    requires
        x25519_public(dh_priv).len() == KEY_LEN,
        start_keys_sized(sk),
    ensures
        reads_itself(session_start(sk, peer_dh, dh_priv, x25519_public(dh_priv), now)),
{
    broadcast use law_b64_reads_back;

    let s = session_start(sk, peer_dh, dh_priv, x25519_public(dh_priv), now);
    assert(s.skipped_keys.len() == 0);
}

/// A message to oneself arrives, and so does the next one: it is read by the session that sent it,
/// without a step of the ratchet, whatever ratchet key is known of the peer. Only a number over the
/// limit stops it.
pub proof fn law_message_to_oneself(
    s: SessionView,
    after: SessionView,
    m: DrView,
    body: Seq<u8>,
    my_fp: Seq<char>,
    fresh: Seq<u8>,
)
    requires
        reads_itself(s),
        sealed_for(s, after, m, body),
        hex_text(m.sender_fp) == my_fp,
        m.n <= MAX_MESSAGE_NUMBER,
    ensures
        received(after, m, my_fp, fresh) matches Ok(ReceivedView::Delivered {
            session,
            plaintext,
            from_skipped,
        }) && plaintext == body && !from_skipped && reads_itself(session),
{
    broadcast use law_b64_reads_back;

    let ck = decoded(s.chain_recv_b64->0)->Ok_0;
    let steps = (m.n - s.n_recv) as nat;
    let here = chain_after(ck, steps);
    law_no_step_for_an_own_message(after, m, my_fp);
    assert(found(after.skipped_keys, skip_name(m.dh_pub, m.n)) is None);
    let list = passed_over(ck, m.dh_pub, s.n_recv, steps);
    let session = SessionView {
        chain_recv_b64: Some(b64url_text(next_chain(here))),
        n_recv: (m.n + 1) as u32,
        skipped_keys: stored_all(s.skipped_keys, list),
        ..after
    };
    lemma_passed_over_names(ck, m.dh_pub, s.n_recv, steps);
    assert forall|n: u32| session.n_recv <= n implies found(
        session.skipped_keys,
        #[trigger] skip_name(m.dh_pub, n),
    ) is None by {
        assert forall|i: int| 0 <= i < list.len() implies (#[trigger] list[i]).0 != skip_name(
            m.dh_pub,
            n,
        ) by {}
        lemma_stored_all_absent(s.skipped_keys, list, skip_name(m.dh_pub, n));
    }
    assert(chain_after(next_chain(here), 0) == next_chain(here));
    assert(received(after, m, my_fp, fresh) == Ok::<ReceivedView, MeshError>(
        ReceivedView::Delivered { session, plaintext: body, from_skipped: false },
    ));
}

/// A session without the peer's ratchet key cannot start a sending chain, nor can one with a key of
/// another length or of no base64.
pub proof fn law_no_new_sending_chain(s: SessionView, fresh: Seq<u8>)
    ensures
        s.dh_recv_pub_b64 is None ==> send_ratcheted(s, fresh) == Err::<SessionView, MeshError>(
            MeshError::NoRatchetKey,
        ),
        send_ratcheted(s, fresh) is Ok <==> {
            &&& s.dh_recv_pub_b64 is Some
            &&& decoded(s.dh_recv_pub_b64->0) is Ok
            &&& decoded(s.dh_recv_pub_b64->0)->Ok_0.len() == 32
            &&& decoded(s.root_key_b64) is Ok
        },
{
}

/// A session without a sending chain gets one wherever the peer's ratchet key and the root key are
/// sound, and nothing else of it changes but the root key, the own ratchet pair and the numbers.
pub proof fn law_new_sending_chain(s: SessionView, fresh: Seq<u8>)
    requires
        peer_ratchet_key(s) is Ok,
        decoded(s.root_key_b64) is Ok,
    ensures
        send_ratcheted(s, fresh) matches Ok(t) && {
            &&& decoded(t.root_key_b64) == Ok::<Seq<u8>, MeshError>(
                next_root(
                    decoded(s.root_key_b64)->Ok_0,
                    x25519(fresh, peer_ratchet_key(s)->Ok_0),
                ),
            )
            &&& t.chain_send_b64 matches Some(text) && decoded(text) == Ok::<Seq<u8>, MeshError>(
                root_chain(
                    decoded(s.root_key_b64)->Ok_0,
                    x25519(fresh, peer_ratchet_key(s)->Ok_0),
                ),
            )
            &&& decoded(t.dh_send_priv_b64) == Ok::<Seq<u8>, MeshError>(fresh)
            &&& decoded(t.dh_send_pub_b64) == Ok::<Seq<u8>, MeshError>(x25519_public(fresh))
            &&& t.n_send == 0
            &&& t.pn == s.n_send
            &&& t.chain_recv_b64 == s.chain_recv_b64
            &&& t.dh_recv_pub_b64 == s.dh_recv_pub_b64
            &&& t.n_recv == s.n_recv
            &&& t.header_key_b64 == s.header_key_b64
            &&& t.skipped_keys == s.skipped_keys
            &&& t.created_at == s.created_at
        },
{
    broadcast use law_b64_reads_back;

}

/// Who can answer still can after the peer has sent another message.
pub proof fn law_can_answer_after_sending(
    b: SessionView,
    a: SessionView,
    after: SessionView,
    m: DrView,
    body: Seq<u8>,
)
    requires
        can_answer(b, a),
        sealed_for(a, after, m, body),
    ensures
        can_answer(b, after),
{
}

/// Who can answer still can after another message was delivered to it.
pub proof fn law_can_answer_after_receiving(
    b: SessionView,
    a: SessionView,
    m: DrView,
    my_fp: Seq<char>,
    fresh: Seq<u8>,
    session: SessionView,
    plaintext: Seq<u8>,
    from_skipped: bool,
)
    requires
        can_answer(b, a),
        !takes_step(b, m, my_fp),
        received(b, m, my_fp, fresh) == Ok::<ReceivedView, MeshError>(
            ReceivedView::Delivered { session, plaintext, from_skipped },
        ),
    ensures
        can_answer(session, a),
{
}

/// A message that is lost or late leaves the two sessions in step.
pub proof fn law_in_step_without_delivery(
    a: SessionView,
    after: SessionView,
    m: DrView,
    body: Seq<u8>,
    b: SessionView,
)
    requires
        sealed_for(a, after, m, body),
        in_step(a, b),
    ensures
        in_step(after, b),
{
    broadcast use law_b64_reads_back;

    let steps = (a.n_send - b.n_recv) as nat;
    assert(chain_after(decoded(b.chain_recv_b64->0)->Ok_0, steps + 1) == next_chain(
        chain_after(decoded(b.chain_recv_b64->0)->Ok_0, steps),
    ));
}

/// A session in step delivers the next message, whatever came before it was lost or late, and is
/// in step again. Only a number over the limit stops it.
pub proof fn law_delivery(
    a: SessionView,
    after: SessionView,
    m: DrView,
    body: Seq<u8>,
    b: SessionView,
    my_fp: Seq<char>,
    fresh: Seq<u8>,
)
    requires
        sealed_for(a, after, m, body),
        in_step(a, b),
        m.n <= MAX_MESSAGE_NUMBER,
    ensures
        received(b, m, my_fp, fresh) matches Ok(ReceivedView::Delivered {
            session,
            plaintext,
            from_skipped,
        }) && plaintext == body && !from_skipped && in_step(after, session),
{
    broadcast use law_b64_reads_back;

    let ck = decoded(b.chain_recv_b64->0)->Ok_0;
    let steps = (m.n - b.n_recv) as nat;
    let here = chain_after(ck, steps);
    assert(found(b.skipped_keys, skip_name(m.dh_pub, m.n)) is None);
    let list = passed_over(ck, m.dh_pub, b.n_recv, steps);
    let session = SessionView {
        chain_recv_b64: Some(b64url_text(next_chain(here))),
        n_recv: (m.n + 1) as u32,
        skipped_keys: stored_all(b.skipped_keys, list),
        ..b
    };
    lemma_passed_over_names(ck, m.dh_pub, b.n_recv, steps);
    assert forall|n: u32| session.n_recv <= n implies found(
        session.skipped_keys,
        #[trigger] skip_name(m.dh_pub, n),
    ) is None by {
        assert forall|i: int| 0 <= i < list.len() implies (#[trigger] list[i]).0 != skip_name(
            m.dh_pub,
            n,
        ) by {}
        lemma_stored_all_absent(b.skipped_keys, list, skip_name(m.dh_pub, n));
    }
    assert(in_step(after, session));
}

/// A message whose key was kept is delivered under it, and the key is gone afterwards.
pub proof fn law_kept_key_delivers(
    a: SessionView,
    after: SessionView,
    m: DrView,
    body: Seq<u8>,
    b: SessionView,
    my_fp: Seq<char>,
    fresh: Seq<u8>,
)
    requires
        sealed_for(a, after, m, body),
        key_kept(b, m.dh_pub, m.n, message_key(decoded(a.chain_send_b64->0)->Ok_0)),
        m.n <= MAX_MESSAGE_NUMBER,
    ensures
        received(b, m, my_fp, fresh) == Ok::<ReceivedView, MeshError>(
            ReceivedView::Delivered {
                session: SessionView {
                    skipped_keys: without(b.skipped_keys, skip_name(m.dh_pub, m.n)),
                    ..b
                },
                plaintext: body,
                from_skipped: true,
            },
        ),
{
}

/// The messages of a new chain tell how many were sent on the chain before it: this is the first of
/// them, and the number stays as it is while further ones are sent.
pub proof fn law_pn_counts_the_chain_before(
    s: SessionView,
    fresh: Seq<u8>,
    turned: SessionView,
    after: SessionView,
    m: DrView,
    body: Seq<u8>,
)
    requires
        send_ratcheted(s, fresh) == Ok::<SessionView, MeshError>(turned),
        sealed_for(turned, after, m, body),
    ensures
        m.pn == s.n_send,
        m.n == 0,
        after.pn == m.pn,
{
}

/// `later` overtakes `m`, a message of the chain that the session `b` reads, and not by more than
/// keys are kept: it is a later one of the same chain, or one of the chain after it that counts `m`
/// among the messages of the chain before.
pub open spec fn overtakes(b: SessionView, later: DrView, m: DrView, my_fp: Seq<char>) -> bool {
    if takes_step(b, later, my_fp) {
        &&& m.n < later.pn
        &&& chain_end(later.pn) - m.n + later.n <= MAX_SKIPPED_KEYS
    } else {
        &&& later.dh_pub == m.dh_pub
        &&& m.n < later.n
        &&& later.n - m.n <= MAX_SKIPPED_KEYS
    }
}

/// A message that arrives after a later one, of its own chain or of the one after it, is delivered
/// all the same: `late` is the session after the later message was delivered to a session in step,
/// and has the keys that `receive_dr` keeps.
pub proof fn law_out_of_order(
    a: SessionView,
    after: SessionView,
    m: DrView,
    body: Seq<u8>,
    b: SessionView,
    later: DrView,
    step: Seq<u8>,
    late: SessionView,
    my_fp: Seq<char>,
    fresh: Seq<u8>,
)
    requires
        sealed_for(a, after, m, body),
        in_step(a, b),
        overtakes(b, later, m, my_fp),
        m.n <= MAX_MESSAGE_NUMBER,
        overtaken_keys_kept(late, b, later, my_fp, step),
    ensures
        received(late, m, my_fp, fresh) == Ok::<ReceivedView, MeshError>(
            ReceivedView::Delivered {
                session: SessionView {
                    skipped_keys: without(late.skipped_keys, skip_name(m.dh_pub, m.n)),
                    ..late
                },
                plaintext: body,
                from_skipped: true,
            },
        ),
{
    let ck = decoded(b.chain_recv_b64->0)->Ok_0;
    if takes_step(b, later, my_fp) {
        assert(ending_chain(b) == Some((ck, m.dh_pub)));
    }
    assert(key_kept(
        late,
        m.dh_pub,
        m.n,
        message_key(chain_after(ck, (m.n - b.n_recv) as nat)),
    ));
    law_kept_key_delivers(a, after, m, body, late, my_fp, fresh);
}

/// A late message that is delivered under a kept key leaves the two sessions in step.
pub proof fn law_in_step_after_late_message(a: SessionView, b: SessionView, name: Seq<char>)
    requires
        in_step(a, b),
    ensures
        in_step(a, (SessionView { skipped_keys: without(b.skipped_keys, name), ..b })),
{
    let dh = decoded_key(a.dh_send_pub_b64, MeshError::DhPublicLength)->Ok_0;
    let left = without(b.skipped_keys, name);
    assert forall|n: u32| b.n_recv <= n implies found(
        left,
        #[trigger] skip_name(dh, n),
    ) is None by {
        lemma_without_absent(b.skipped_keys, name, skip_name(dh, n));
    }
}

/// The header key of the session `a` opens the header of `m` to JSON in which the ratchet key and
/// the two numbers of the message can be read.
pub open spec fn header_opens(a: SessionView, m: DrView) -> bool {
    let key = decoded_key(a.header_key_b64, MeshError::HeaderKeyLength);
    let header = encode_utf8(header_text(m.dh_pub, m.pn, m.n));
    &&& key is Ok
    &&& xopened(key->Ok_0, m.header_nonce, m.header_ct, Seq::empty()) == Some(header)
    &&& json_text(header, "dh"@) == Some(b64url_text(m.dh_pub))
    &&& json_number(header, "pn"@) == Some(m.pn as u64)
    &&& json_number(header, "n"@) == Some(m.n as u64)
}

/// The views of a session and a message in a result.
pub open spec fn outgoing_view(r: Result<(Session, DrMessage), MeshError>) -> Result<
    (SessionView, DrView),
    MeshError,
> {
    match r {
        Ok(t) => Ok((t.0@, t.1@)),
        Err(e) => Err(e),
    }
}

/// Encrypts the next message of a session, with given nonces and time. What is encrypted is JSON in
/// which the text, the sender and the numbers can be read, and the key of its number opens it. The
/// header key opens the header, in which the ratchet key and the numbers can be read. The message
/// is read back from the wire.
pub fn seal_message(
    sess: Session,
    my_fp: &str,
    my_x_pub: &[u8; 32],
    init: Option<InitKeys>,
    text: &str,
    header_nonce: &[u8; 24],
    body_nonce: &[u8; 24],
    ts: i64,
) -> (r: Result<(Session, DrMessage), MeshError>)
    ensures
        outgoing_view(r) == outgoing(
            sess@,
            my_fp@,
            my_x_pub@,
            opt_view(init),
            text@,
            header_nonce@,
            body_nonce@,
            ts,
        ),
        can_send(sess@, my_fp@) && aead_fits(
            encode_utf8(body_text(text@, my_fp@, ts, sess.n_send, sess.pn)).len(),
        ) ==> r is Ok,
        can_send(sess@, my_fp@) && text_fits(text@, my_fp@) ==> r is Ok,
        r matches Ok((after, m)) ==> {
            let body = encode_utf8(body_text(text@, my_fp@, ts, m.n, m.pn));
            &&& m@.well_formed()
            &&& sealed_for(sess@, after@, m@, body)
            &&& json_text(body, "text"@) == Some(text@)
            &&& json_text(body, "from"@) == Some(my_fp@)
            &&& json_number(body, "n"@) == Some(m.n as u64)
            &&& json_number(body, "pn"@) == Some(m.pn as u64)
            &&& ts >= 0 ==> json_number(body, "ts"@) == Some(ts as u64)
            &&& header_opens(sess@, m@)
            &&& classified(dr_wire(m@)) == InboundView::Dr(m@)
        },
{
    if sess.n_send == u32::MAX {
        return Err(MeshError::CounterExhausted);
    }
    let mut chain = match sess.chain_send()? {
        Some(c) => c,
        None => {
            return Err(MeshError::NoSendingChain);
        },
    };
    let (next, key) = kdf_ck(chain.as_slice())?;
    wipe(&mut chain);
    let dh_pub = sess.dh_send_pub_bytes()?;
    let header_key = sess.header_key()?;
    let header = header_json(&dh_pub, sess.pn, sess.n_send);
    let no_aad = "".as_bytes();
    proof {
        reveal_strlit("");
        assert(no_aad@ =~= Seq::empty());
    }
    let header_ct = xenc(&header_key, header_nonce, header.as_str().as_bytes(), no_aad)?;
    let mut mk_bytes = key;
    let mut mk = read_array32(mk_bytes.as_slice(), 0);
    assert(mk@ =~= mk_bytes@);
    wipe(&mut mk_bytes);
    let body = body_json(text, my_fp, ts, sess.n_send, sess.pn);
    let sealed = xenc(&mk, body_nonce, body.as_str().as_bytes(), header_ct.as_slice());
    wipe_key(&mut mk);
    proof {
        if text_fits(text@, my_fp@) {
            assert(aead_fits(encode_utf8(body@).len()));
        }
    }
    let body_ct = sealed?;
    let sender_fp = fp_to_bytes(my_fp)?;
    let m = DrMessage {
        init,
        sender_fp,
        sender_x: *my_x_pub,
        dh_pub,
        pn: sess.pn,
        n: sess.n_send,
        header_nonce: *header_nonce,
        header_ct,
        body_nonce: *body_nonce,
        body_ct,
    };
    let mut spent = next;
    let next_text = b64_encode(spent.as_slice());
    wipe(&mut spent);
    let after = Session {
        root_key_b64: sess.root_key_b64,
        chain_send_b64: Some(next_text),
        chain_recv_b64: sess.chain_recv_b64,
        dh_send_priv_b64: sess.dh_send_priv_b64,
        dh_send_pub_b64: sess.dh_send_pub_b64,
        dh_recv_pub_b64: sess.dh_recv_pub_b64,
        n_send: sess.n_send + 1,
        n_recv: sess.n_recv,
        pn: sess.pn,
        header_key_b64: sess.header_key_b64,
        skipped_keys: sess.skipped_keys,
        created_at: sess.created_at,
    };
    proof {
        law_dr_round_trip(m@);
    }
    Ok((after, m))
}

/// Encrypts the next message of a session, with nonces that are drawn here and at the time that
/// the clock shows.
pub fn send_message(
    sess: Session,
    my_fp: &str,
    my_x_pub: &[u8; 32],
    init: Option<InitKeys>,
    text: &str,
) -> (r: Result<(Session, DrMessage), MeshError>)
    ensures
        outgoing_view(r) == Err::<(SessionView, DrView), MeshError>(MeshError::NoRandomness)
            || outgoing_view(r) == Err::<(SessionView, DrView), MeshError>(MeshError::NoClock)
            || exists|header_nonce: Seq<u8>, body_nonce: Seq<u8>, ts: i64|
            {
                &&& header_nonce.len() == NONCE_LEN
                &&& body_nonce.len() == NONCE_LEN
                &&& outgoing_view(r) == #[trigger] outgoing(
                    sess@,
                    my_fp@,
                    my_x_pub@,
                    opt_view(init),
                    text@,
                    header_nonce,
                    body_nonce,
                    ts,
                )
            },
        r matches Ok((after, m)) ==> m@.well_formed() && exists|ts: i64|
            {
                let body = #[trigger] encode_utf8(body_text(text@, my_fp@, ts, m.n, m.pn));
                &&& sealed_for(sess@, after@, m@, body)
                &&& json_text(body, "text"@) == Some(text@)
                &&& json_text(body, "from"@) == Some(my_fp@)
                &&& json_number(body, "n"@) == Some(m.n as u64)
                &&& json_number(body, "pn"@) == Some(m.pn as u64)
                &&& ts >= 0 ==> json_number(body, "ts"@) == Some(ts as u64)
            },
        can_send(sess@, my_fp@) && text_fits(text@, my_fp@) ==> (r matches Err(e) ==> e
            == MeshError::NoRandomness || e == MeshError::NoClock),
        r matches Ok((after, m)) ==> header_opens(sess@, m@) && classified(dr_wire(m@))
            == InboundView::Dr(m@),
{
    match (random_array::<24>(), random_array::<24>()) {
        (Some(header_nonce), Some(body_nonce)) => {
            let ts: i64 = now_secs()?;
            seal_message(sess, my_fp, my_x_pub, init, text, &header_nonce, &body_nonce, ts)
        },
        _ => Err(MeshError::NoRandomness),
    }
}

} // verus!
