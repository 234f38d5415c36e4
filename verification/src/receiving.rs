//! Receiving the messages of a session.
use vstd::prelude::*;
use vstd::string::*;

use crate::bytes::{read_array32, same_bytes, same_text, KEY_LEN};
use crate::encoding::{b64_decode, b64_decode_key, b64_encode, fp_from_bytes, hex_of};
use crate::envelope::DrMessage;
use crate::error::MeshError;
use crate::kdf::{generate_dh_keypair, hkdf_derive, kdf_ck, kdf_rk, xdec};
use crate::primitives::{wipe, wipe_key, x25519_public_key, x25519_shared};
use crate::session::Session;
use crate::skipped::{SkippedKeys, MAX_SKIPPED_KEYS};
use crate::text::decimal_text;

verus! {

use crate::bytes::res_view;
use crate::b64::b64url_text;
use crate::encoding::{b64_bytes, decoded, decoded_key, law_b64_reads_back};
use crate::envelope::DrView;
use crate::kdf::{
    chain_after,
    message_key,
    next_chain,
    next_root,
    root_chain,
    xopened,
};
use crate::primitives::{hex_digit, hex_text, hkdf_sha256, x25519, x25519_public};
use crate::sending::{dh_agrees, law_reply, reads_reply, replies};
use crate::session::{first_chain, SessionView};
use crate::skipped::{
    distinct,
    found,
    law_stored_found,
    lemma_found_absent,
    lemma_stored_all,
    lemma_stored_all_absent,
    lemma_stored_all_append,
    lemma_stored_all_keeps,
    lemma_without,
    lemma_without_absent,
    lemma_without_keeps,
    stored_all,
    without,
};
use crate::text::{
    decimal,
    decimal_value,
    law_decimal_reads_back,
    lemma_decimal_injective,
};

/// The highest message number that is accepted.
pub const MAX_MESSAGE_NUMBER: u32 = 10000;

/// Why a message was not accepted.
#[derive(Debug, Clone, Copy, PartialEq, Eq, Structural)]
pub enum Rejection {
    /// Its number is over the limit.
    NumberTooLarge,
    /// Its number was passed and its key is not at hand.
    OldNumber,
    /// It does not decrypt under the key that was kept for it.
    SkippedDecrypt,
    /// It does not decrypt under the key of its number.
    BodyDecrypt,
}

/// What became of a message.
#[derive(Debug)]
pub enum Received {
    /// It was decrypted; the session has moved on.
    Delivered {
        /// The session to keep.
        session: Session,
        /// The decrypted body.
        plaintext: Vec<u8>,
        /// Whether its key had been kept since the message was passed over.
        from_skipped: bool,
    },
    /// It was not accepted; the session stays as it was.
    Rejected(Rejection),
}

/// What became of a message.
pub ghost enum ReceivedView {
    Delivered { session: SessionView, plaintext: Seq<u8>, from_skipped: bool },
    Rejected(Rejection),
}

impl View for Received {
    type V = ReceivedView;

    open spec fn view(&self) -> ReceivedView {
        match self {
            Received::Delivered { session, plaintext, from_skipped } => ReceivedView::Delivered {
                session: session@,
                plaintext: plaintext@,
                from_skipped: *from_skipped,
            },
            Received::Rejected(why) => ReceivedView::Rejected(*why),
        }
    }
}

// ---------------------------------------------------------------- what is received

/// The name under which the key of a passed-over message is kept.
pub open spec fn skip_name(dh: Seq<u8>, n: u32) -> Seq<char> {
    hex_text(dh) + "-"@ + decimal(n as nat)
}

/// Whether a message calls for a step of the ratchet: its ratchet key is not the peer's present
/// one. A message of one's own never does, nor does one that carries one's own ratchet key.
pub open spec fn ratchet_due(s: SessionView, m: DrView, my_fp: Seq<char>) -> Result<
    bool,
    MeshError,
> {
    let known = match s.dh_recv_pub_b64 {
        None => Ok(false),
        Some(text) => match decoded(text) {
            Ok(key) => Ok(key == m.dh_pub),
            Err(e) => Err(e),
        },
    };
    match known {
        Err(e) => Err(e),
        Ok(same) => Ok(
            !same && hex_text(m.sender_fp) != my_fp && b64_bytes(s.dh_send_pub_b64) != Some(
                m.dh_pub,
            ),
        ),
    }
}

/// The ratchet key of a message is new to a session: it comes from someone else, it is not the own
/// one, and it is not the one that is known of the peer.
pub open spec fn new_ratchet_key(s: SessionView, m: DrView, my_fp: Seq<char>) -> bool {
    &&& hex_text(m.sender_fp) != my_fp
    &&& b64_bytes(s.dh_send_pub_b64) != Some(m.dh_pub)
    &&& s.dh_recv_pub_b64 matches Some(text) ==> b64_bytes(text) is Some && b64_bytes(text) != Some(
        m.dh_pub,
    )
}

/// A new ratchet key of the peer calls for a step of the ratchet, and nothing else does.
pub proof fn law_step_for_a_new_key(s: SessionView, m: DrView, my_fp: Seq<char>)
    ensures
        ratchet_due(s, m, my_fp) == Ok::<bool, MeshError>(true) <==> new_ratchet_key(s, m, my_fp),
{
}

/// A message of one's own, or under one's own ratchet key, calls for no step of the ratchet,
/// whatever key is known of the peer. Nor does a message under the key that is known.
pub proof fn law_no_step_for_an_own_message(s: SessionView, m: DrView, my_fp: Seq<char>)
    requires
        s.dh_recv_pub_b64 matches Some(text) ==> b64_bytes(text) is Some,
        hex_text(m.sender_fp) == my_fp || b64_bytes(s.dh_send_pub_b64) == Some(m.dh_pub) || (
        s.dh_recv_pub_b64 matches Some(text) && b64_bytes(text) == Some(m.dh_pub)),
    ensures
        ratchet_due(s, m, my_fp) == Ok::<bool, MeshError>(false),
{
}

/// Whether a step of the ratchet is due can be told unless the peer's key is no base64.
pub proof fn law_step_can_be_told(s: SessionView, m: DrView, my_fp: Seq<char>)
    ensures
        ratchet_due(s, m, my_fp) is Err <==> (s.dh_recv_pub_b64 matches Some(text) && b64_bytes(
            text,
        ) is None),
        ratchet_due(s, m, my_fp) matches Err(e) ==> e == MeshError::BadBase64,
{
}

/// Where the keys end that are kept of a chain of `pn` messages: no number over the limit is
/// accepted, so none is kept for one.
pub open spec fn chain_end(pn: u32) -> u32 {
    if pn > MAX_MESSAGE_NUMBER {
        (MAX_MESSAGE_NUMBER + 1) as u32
    } else {
        pn
    }
}

/// The receiving chain and the peer's ratchet key that it belongs to, as a step of the ratchet
/// finds them.
pub open spec fn ending_chain(s: SessionView) -> Option<(Seq<u8>, Seq<u8>)> {
    match (recv_chain_text(s), s.dh_recv_pub_b64) {
        (Ok(text), Some(known)) => match (
            decoded(text),
            decoded_key(known, MeshError::DhReceivedLength),
        ) {
            (Ok(ck), Ok(dh)) => Some((ck, dh)),
            _ => None,
        },
        _ => None,
    }
}

/// The keys of the messages that have not arrived yet of the receiving chain, of which the peer
/// sent `pn` in all.
pub open spec fn rest_of_chain(s: SessionView, pn: u32) -> Seq<(Seq<char>, Seq<char>)> {
    match ending_chain(s) {
        Some((ck, dh)) => if s.n_recv < chain_end(pn) {
            passed_over(ck, dh, s.n_recv, (chain_end(pn) - s.n_recv) as nat)
        } else {
            Seq::empty()
        },
        None => Seq::empty(),
    }
}

/// The session after a step of the ratchet to the peer's key `dh`, with a fresh private key. The
/// peer sent `pn` messages on the chain that ends here, and the keys of those still to come are
/// kept. There is no sending chain afterwards, so that the next message sent takes a step of its
/// own.
pub open spec fn ratcheted(s: SessionView, dh: Seq<u8>, pn: u32, fresh: Seq<u8>) -> Result<
    SessionView,
    MeshError,
> {
    match decoded_key(s.dh_send_priv_b64, MeshError::DhPrivateLength) {
        Err(e) => Err(e),
        Ok(our_priv) => match decoded(s.root_key_b64) {
            Err(e) => Err(e),
            Ok(rk) => {
                let dh_out = x25519(our_priv, dh);
                Ok(
                    SessionView {
                        root_key_b64: b64url_text(next_root(rk, dh_out)),
                        chain_send_b64: None,
                        chain_recv_b64: Some(b64url_text(root_chain(rk, dh_out))),
                        dh_recv_pub_b64: Some(b64url_text(dh)),
                        n_recv: 0,
                        pn: s.n_send,
                        dh_send_priv_b64: b64url_text(fresh),
                        dh_send_pub_b64: b64url_text(x25519_public(fresh)),
                        skipped_keys: stored_all(s.skipped_keys, rest_of_chain(s, pn)),
                        ..s
                    },
                )
            },
        },
    }
}

/// The base64 text of the receiving chain: where there is none, the chain that the root key gives.
pub open spec fn recv_chain_text(s: SessionView) -> Result<Seq<char>, MeshError> {
    match s.chain_recv_b64 {
        Some(text) => Ok(text),
        None => match decoded(s.root_key_b64) {
            Ok(rk) => Ok(b64url_text(first_chain(rk))),
            Err(e) => Err(e),
        },
    }
}

/// The keys of `count` messages from number `from` on, by name, the chain standing at `ck`.
pub open spec fn passed_over(ck: Seq<u8>, dh: Seq<u8>, from: u32, count: nat) -> Seq<
    (Seq<char>, Seq<char>),
> {
    Seq::new(
        count,
        |k: int|
            (
                skip_name(dh, (from + k) as u32),
                b64url_text(message_key(chain_after(ck, k as nat))),
            ),
    )
}

/// Receives a message on the receiving chain as it stands: the keys of messages in between are
/// kept, and the chain moves past the message.
pub open spec fn received_on_chain(s: SessionView, m: DrView) -> Result<ReceivedView, MeshError> {
    match recv_chain_text(s) {
        Err(e) => Err(e),
        Ok(text) => if m.n < s.n_recv {
            Ok(ReceivedView::Rejected(Rejection::OldNumber))
        } else {
            match decoded(text) {
                Err(e) => Err(e),
                Ok(ck) => match decoded_key(s.header_key_b64, MeshError::HeaderKeyLength) {
                    Err(e) => Err(e),
                    Ok(_) => {
                        let count = (m.n - s.n_recv) as nat;
                        let here = chain_after(ck, count);
                        match xopened(message_key(here), m.body_nonce, m.body_ct, m.header_ct) {
                            None => Ok(ReceivedView::Rejected(Rejection::BodyDecrypt)),
                            Some(plaintext) => Ok(
                                ReceivedView::Delivered {
                                    session: SessionView {
                                        chain_recv_b64: Some(b64url_text(next_chain(here))),
                                        n_recv: (m.n + 1) as u32,
                                        skipped_keys: stored_all(
                                            s.skipped_keys,
                                            passed_over(ck, m.dh_pub, s.n_recv, count),
                                        ),
                                        ..s
                                    },
                                    plaintext,
                                    from_skipped: false,
                                },
                            ),
                        }
                    },
                },
            }
        },
    }
}

/// Receives a message under the key that was kept for it, which is then gone.
pub open spec fn received_by_kept_key(s: SessionView, m: DrView, text: Seq<char>) -> Result<
    ReceivedView,
    MeshError,
> {
    match decoded_key(text, MeshError::MessageKeyLength) {
        Err(e) => Err(e),
        Ok(mk) => match xopened(mk, m.body_nonce, m.body_ct, m.header_ct) {
            None => Ok(ReceivedView::Rejected(Rejection::SkippedDecrypt)),
            Some(plaintext) => Ok(
                ReceivedView::Delivered {
                    session: SessionView {
                        skipped_keys: without(s.skipped_keys, skip_name(m.dh_pub, m.n)),
                        ..s
                    },
                    plaintext,
                    from_skipped: true,
                },
            ),
        },
    }
}

/// Receives a message; `fresh` is the private key for a step of the ratchet, if one is due.
pub open spec fn received(s: SessionView, m: DrView, my_fp: Seq<char>, fresh: Seq<u8>) -> Result<
    ReceivedView,
    MeshError,
> {
    if m.n > MAX_MESSAGE_NUMBER {
        Ok(ReceivedView::Rejected(Rejection::NumberTooLarge))
    } else {
        match found(s.skipped_keys, skip_name(m.dh_pub, m.n)) {
            Some(text) => received_by_kept_key(s, m, text),
            None => match ratchet_due(s, m, my_fp) {
                Err(e) => Err(e),
                Ok(due) => if due {
                    match ratcheted(s, m.dh_pub, m.pn, fresh) {
                        Err(e) => Err(e),
                        Ok(next) => received_on_chain(next, m),
                    }
                } else {
                    received_on_chain(s, m)
                },
            },
        }
    }
}

// ---------------------------------------------------------------- executable

fn skip_key(dh: &[u8; 32], n: u32) -> (r: String)
    ensures
        r@ == skip_name(dh@, n),
{
    let mut name = hex_of(dh.as_slice());
    name.append("-");
    let digits = decimal_text(n as u64);
    name.append(digits.as_str());
    name
}

/// Whether a message calls for a step of the ratchet.
pub fn need_ratchet(sess: &Session, m: &DrMessage, my_fp: &str) -> (r: Result<bool, MeshError>)
    ensures
        r == ratchet_due(sess@, m@, my_fp@),
        r == Ok::<bool, MeshError>(true) <==> new_ratchet_key(sess@, m@, my_fp@),
{
    let same: bool = match &sess.dh_recv_pub_b64 {
        None => false,
        Some(text) => {
            let key = b64_decode(text.as_str())?;
            same_bytes(key.as_slice(), m.dh_pub.as_slice())
        },
    };
    let sender = fp_from_bytes(&m.sender_fp);
    if same || same_text(sender.as_str(), my_fp) {
        return Ok(false);
    }
    match b64_decode(sess.dh_send_pub_b64.as_str()) {
        Ok(own) => Ok(!same_bytes(own.as_slice(), m.dh_pub.as_slice())),
        Err(_) => Ok(true),
    }
}

/// Keeps the keys of the messages from `from` up to `to` and moves the chain there.
fn pass_over(skipped: &mut SkippedKeys, ck: Vec<u8>, dh: &[u8; 32], from: u32, to: u32) -> (r: Vec<
    u8,
>)
    requires
        from <= to,
    ensures
        final(skipped)@ == stored_all(
            old(skipped)@,
            passed_over(ck@, dh@, from, (to - from) as nat),
        ),
        r@ == chain_after(ck@, (to - from) as nat),
        forall|k: nat|
            k < to - from ==> (#[trigger] message_key(chain_after(ck@, k))).len() == KEY_LEN,
{
    let ghost start = ck@;
    let ghost entries = skipped@;
    let mut chain = ck;
    let mut i: u32 = from;
    assert(passed_over(start, dh@, from, 0) =~= Seq::empty());
    while i < to
        invariant
            from <= i <= to,
            chain@ == chain_after(start, (i - from) as nat),
            skipped@ == stored_all(entries, passed_over(start, dh@, from, (i - from) as nat)),
            forall|k: nat|
                k < i - from ==> (#[trigger] message_key(chain_after(start, k))).len() == KEY_LEN,
        decreases to - i,
    {
        let ghost count = (i - from) as nat;
        let (next, key) = kdf_ck(chain.as_slice()).unwrap();
        let mut mk = key;
        let text = b64_encode(mk.as_slice());
        skipped.insert(skip_key(dh, i), text);
        wipe(&mut mk);
        chain = next;
        proof {
            let list = passed_over(start, dh@, from, count + 1);
            assert(list.drop_last() =~= passed_over(start, dh@, from, count));
            assert(list.last() == (
                skip_name(dh@, i),
                b64url_text(message_key(chain_after(start, count))),
            ));
            assert forall|k: nat| k < count + 1 implies (#[trigger] message_key(
                chain_after(start, k),
            )).len() == KEY_LEN by {}
        }
        i = i + 1;
    }
    chain
}

/// The base64 text of the receiving chain.
fn receiving_chain(sess: &Session) -> (r: Result<String, MeshError>)
    ensures
        res_view(r) == recv_chain_text(sess@),
{
    match &sess.chain_recv_b64 {
        Some(text) => Ok(text.clone()),
        None => {
            let rk = b64_decode(sess.root_key_b64.as_str())?;
            let chain = hkdf_derive(rk.as_slice(), "mesh-v3-chain".as_bytes(), KEY_LEN)?;
            Ok(b64_encode(chain.as_slice()))
        },
    }
}

/// Keeps the keys of the messages of the receiving chain that have not arrived yet, of which the
/// peer sent `pn` in all.
fn keep_rest(sess: &Session, pn: u32) -> (r: SkippedKeys)
    ensures
        r@ == stored_all(sess@.skipped_keys, rest_of_chain(sess@, pn)),
        rest_sized(sess@, pn),
{
    let mut skipped = sess.skipped_keys.clone();
    let end: u32 = if pn > MAX_MESSAGE_NUMBER {
        MAX_MESSAGE_NUMBER + 1
    } else {
        pn
    };
    if sess.n_recv < end {
        if let (Ok(text), Ok(Some(dh))) = (receiving_chain(sess), sess.dh_recv_pub_bytes()) {
            if let Ok(ck) = b64_decode(text.as_str()) {
                let mut rest = pass_over(&mut skipped, ck, &dh, sess.n_recv, end);
                wipe(&mut rest);
            }
        }
    }
    skipped
}

/// One step of the ratchet to the peer's key `dh`: the keys that are still to come of the receiving
/// chain, which had `pn` messages, are kept; the receiving chain starts anew, the sending chain
/// ends, and the fresh private key takes the place of the own ratchet pair. The owner of the
/// private key of `dh` agrees on the secret that the step takes in.
pub fn ratchet_receive(sess: Session, dh: &[u8; 32], pn: u32, fresh: &[u8; 32]) -> (r: Result<
    Session,
    MeshError,
>)
    ensures
        res_view(r) == ratcheted(sess@, dh@, pn, fresh@),
        r is Ok ==> rest_sized(sess@, pn),
        r is Ok ==> forall|other: Seq<u8>|
            other.len() == KEY_LEN && dh@ == #[trigger] x25519_public(other) ==> dh_agrees(
                decoded_key(sess@.dh_send_priv_b64, MeshError::DhPrivateLength)->Ok_0,
                other,
            ),
{
    let our_priv = sess.dh_send_priv_bytes()?;
    let rk = sess.root_key()?;
    let dh_out = x25519_shared(&our_priv, dh);
    let (new_rk, new_chain) = kdf_rk(rk.as_slice(), dh_out.as_slice())?;
    let new_pub = x25519_public_key(fresh);
    let skipped_keys = keep_rest(&sess, pn);
    let next = Session {
        root_key_b64: b64_encode(new_rk.as_slice()),
        chain_send_b64: None,
        chain_recv_b64: Some(b64_encode(new_chain.as_slice())),
        dh_send_priv_b64: b64_encode(fresh.as_slice()),
        dh_send_pub_b64: b64_encode(new_pub.as_slice()),
        dh_recv_pub_b64: Some(b64_encode(dh.as_slice())),
        n_send: sess.n_send,
        n_recv: 0,
        pn: sess.n_send,
        header_key_b64: sess.header_key_b64,
        skipped_keys,
        created_at: sess.created_at,
    };
    Ok(next)
}

/// The keys of the messages still to come of a chain that ends have the length of keys.
pub open spec fn rest_sized(s: SessionView, pn: u32) -> bool {
    ending_chain(s) matches Some((ck, dh)) ==> forall|k: nat|
        s.n_recv + k < chain_end(pn) ==> (#[trigger] message_key(chain_after(ck, k))).len()
            == KEY_LEN
}

/// The key `mk` of message `n` under the ratchet key `dh` is at hand.
pub open spec fn key_kept(s: SessionView, dh: Seq<u8>, n: u32, mk: Seq<u8>) -> bool {
    &&& found(s.skipped_keys, skip_name(dh, n)) is Some
    &&& decoded_key(
        found(s.skipped_keys, skip_name(dh, n))->0,
        MeshError::MessageKeyLength,
    ) == Ok::<Seq<u8>, MeshError>(mk)
}

/// After `m` was delivered on the chain at `ck`, whose next message was `from`, the key of every
/// message in between is at hand, as many of the last ones as are kept.
pub open spec fn keys_kept(after: SessionView, m: DrView, ck: Seq<u8>, from: u32) -> bool {
    forall|i: u32|
        from <= i < m.n && m.n - i <= MAX_SKIPPED_KEYS ==> #[trigger] key_kept(
            after,
            m.dh_pub,
            i,
            message_key(chain_after(ck, (i - from) as nat)),
        )
}

/// After `m` took a step of the ratchet from the session `s` and was delivered, the key of every
/// message that was still to come of the chain that ended is at hand, as many of the last ones as
/// are kept besides those that `m` passed over.
pub open spec fn ended_keys_kept(after: SessionView, s: SessionView, m: DrView) -> bool {
    ending_chain(s) matches Some((ck, dh)) ==> forall|i: u32|
        s.n_recv <= i < chain_end(m.pn) && chain_end(m.pn) - i + m.n <= MAX_SKIPPED_KEYS
            ==> #[trigger] key_kept(
            after,
            dh,
            i,
            message_key(chain_after(ck, (i - s.n_recv) as nat)),
        )
}

proof fn lemma_hex_injective(one: Seq<u8>, other: Seq<u8>)
    requires
        hex_text(one) == hex_text(other),
    ensures
        one == other,
{
    assert(hex_text(one).len() == 2 * one.len());
    assert(hex_text(other).len() == 2 * other.len());
    assert forall|k: int| 0 <= k < one.len() implies one[k] == other[k] by {
        let high = 2 * k;
        let low = 2 * k + 1;
        assert(hex_text(one)[high] == hex_digit(one[k] as nat / 16));
        assert(hex_text(other)[high] == hex_digit(other[k] as nat / 16));
        assert(hex_text(one)[low] == hex_digit(one[k] as nat % 16));
        assert(hex_text(other)[low] == hex_digit(other[k] as nat % 16));
    }
    assert(one =~= other);
}

/// Different ratchet keys or different numbers have different names.
pub proof fn lemma_skip_name_injective(one: Seq<u8>, a: u32, other: Seq<u8>, b: u32)
    requires
        skip_name(one, a) == skip_name(other, b),
    ensures
        one == other,
        a == b,
{
    reveal_strlit("-");
    let s = skip_name(one, a);
    let t = skip_name(other, b);
    let i = hex_text(one).len() as int;
    let j = hex_text(other).len() as int;
    assert(s[i] == '-' && t[j] == '-');
    lemma_hex_has_no_dash(one);
    lemma_hex_has_no_dash(other);
    if i < j {
        assert(t[i] == hex_text(other)[i]);
    } else if j < i {
        assert(s[j] == hex_text(one)[j]);
    }
    assert(i == j);
    assert(s.take(i) =~= hex_text(one));
    assert(t.take(i) =~= hex_text(other));
    lemma_hex_injective(one, other);
    assert(s.skip(i + 1) =~= decimal(a as nat));
    assert(t.skip(i + 1) =~= decimal(b as nat));
    lemma_decimal_injective(a as nat, b as nat);
}

proof fn lemma_hex_has_no_dash(bytes: Seq<u8>)
    ensures
        forall|i: int| 0 <= i < hex_text(bytes).len() ==> #[trigger] hex_text(bytes)[i] != '-',
{
    let t = hex_text(bytes);
    assert forall|i: int| 0 <= i < t.len() implies #[trigger] t[i] != '-' by {
        let d: nat = if i % 2 == 0 {
            bytes[i / 2] as nat / 16
        } else {
            bytes[i / 2] as nat % 16
        };
        assert(t[i] == hex_digit(d));
        assert(d < 16);
    }
}

/// The name of a kept key is the ratchet key in hexadecimal, a dash, and the number.
pub proof fn law_skip_name(dh: Seq<u8>, n: u32)
    ensures
        skip_name(dh, n).len() > 2 * dh.len(),
        skip_name(dh, n).take(2 * dh.len() as int) == hex_text(dh),
        skip_name(dh, n)[2 * dh.len() as int] == '-',
        decimal_value(skip_name(dh, n).skip(2 * dh.len() as int + 1)) == n,
{
    reveal_strlit("-");
    let at = 2 * dh.len() as int;
    law_decimal_reads_back(n as nat);
    assert(skip_name(dh, n).take(at) =~= hex_text(dh));
    assert(skip_name(dh, n).skip(at + 1) =~= decimal(n as nat));
}

pub proof fn lemma_passed_over_names(ck: Seq<u8>, dh: Seq<u8>, from: u32, count: nat)
    requires
        from + count <= u32::MAX,
    ensures
        distinct(passed_over(ck, dh, from, count)),
        forall|n: u32, k: int|
            0 <= k < count && (n < from || from + count <= n) ==> #[trigger] skip_name(dh, n) != (
            #[trigger] passed_over(ck, dh, from, count)[k]).0,
{
    let list = passed_over(ck, dh, from, count);
    assert forall|i: int, j: int| 0 <= i < j < list.len() implies (#[trigger] list[i]).0 != (
    #[trigger] list[j]).0 by {
        if list[i].0 == list[j].0 {
            lemma_skip_name_injective(dh, (from + i) as u32, dh, (from + j) as u32);
        }
    }
    assert forall|n: u32, k: int|
        0 <= k < count && (n < from || from + count <= n) implies #[trigger] skip_name(dh, n) != (
    #[trigger] list[k]).0 by {
        if skip_name(dh, n) == list[k].0 {
            lemma_skip_name_injective(dh, n, dh, (from + k) as u32);
        }
    }
}

/// A step of the ratchet keeps nothing under the ratchet key of the message that calls for it.
pub proof fn lemma_rest_names(s: SessionView, m: DrView, my_fp: Seq<char>)
    requires
        ratchet_due(s, m, my_fp) == Ok::<bool, MeshError>(true),
    ensures
        distinct(rest_of_chain(s, m.pn)),
        forall|n: u32, k: int|
            0 <= k < rest_of_chain(s, m.pn).len() ==> #[trigger] skip_name(m.dh_pub, n) != (
            #[trigger] rest_of_chain(s, m.pn)[k]).0,
{
    let list = rest_of_chain(s, m.pn);
    if let Some((ck, dh)) = ending_chain(s) {
        if s.n_recv < chain_end(m.pn) {
            lemma_passed_over_names(ck, dh, s.n_recv, (chain_end(m.pn) - s.n_recv) as nat);
            assert forall|n: u32, k: int| 0 <= k < list.len() implies #[trigger] skip_name(
                m.dh_pub,
                n,
            ) != (#[trigger] list[k]).0 by {
                if skip_name(m.dh_pub, n) == list[k].0 {
                    lemma_skip_name_injective(m.dh_pub, n, dh, (s.n_recv + k) as u32);
                }
            }
        }
    }
}

/// After a step of the ratchet there is nothing under the ratchet key of the message that calls for
/// it, where there was nothing before.
pub proof fn lemma_step_absent(s: SessionView, m: DrView, my_fp: Seq<char>, n: u32)
    requires
        ratchet_due(s, m, my_fp) == Ok::<bool, MeshError>(true),
        found(s.skipped_keys, skip_name(m.dh_pub, n)) is None,
    ensures
        found(
            stored_all(s.skipped_keys, rest_of_chain(s, m.pn)),
            skip_name(m.dh_pub, n),
        ) is None,
{
    let list = rest_of_chain(s, m.pn);
    lemma_rest_names(s, m, my_fp);
    assert forall|i: int| 0 <= i < list.len() implies (#[trigger] list[i]).0 != skip_name(
        m.dh_pub,
        n,
    ) by {}
    lemma_stored_all_absent(s.skipped_keys, list, skip_name(m.dh_pub, n));
}

fn receive_on_chain(sess: Session, m: &DrMessage) -> (r: Result<Received, MeshError>)
    requires
        m.n < u32::MAX,
        distinct(sess@.skipped_keys),
        sess@.skipped_keys.len() <= MAX_SKIPPED_KEYS,
    ensures
        res_view(r) == received_on_chain(sess@, m@),
        r matches Ok(Received::Delivered { session, .. }) ==> keys_kept(
            session@,
            m@,
            decoded(recv_chain_text(sess@)->Ok_0)->Ok_0,
            sess.n_recv,
        ),
{
    let chain_text = receiving_chain(&sess)?;
    if m.n < sess.n_recv {
        return Ok(Received::Rejected(Rejection::OldNumber));
    }
    let ck = b64_decode(chain_text.as_str())?;
    // The header repeats what the message says in the clear, so only its key is looked at.
    let _header_key = sess.header_key()?;
    let mut skipped = sess.skipped_keys;
    let ghost before = skipped@;
    let ghost start = ck@;
    let ghost count = (m.n - sess.n_recv) as nat;
    proof {
        lemma_passed_over_names(start, m.dh_pub@, sess.n_recv, count);
    }
    let here = pass_over(&mut skipped, ck, &m.dh_pub, sess.n_recv, m.n);
    let (next, key) = kdf_ck(here.as_slice())?;
    let mut mk_bytes = key;
    let mut mk = read_array32(mk_bytes.as_slice(), 0);
    assert(mk@ =~= mk_bytes@);
    wipe(&mut mk_bytes);
    let opened = xdec(&mk, &m.body_nonce, m.body_ct.as_slice(), m.header_ct.as_slice());
    wipe_key(&mut mk);
    let plaintext = match opened {
        Ok(pt) => pt,
        Err(_) => {
            return Ok(Received::Rejected(Rejection::BodyDecrypt));
        },
    };
    let mut spent = next;
    let next_text = b64_encode(spent.as_slice());
    wipe(&mut spent);
    let session = Session {
        root_key_b64: sess.root_key_b64,
        chain_send_b64: sess.chain_send_b64,
        chain_recv_b64: Some(next_text),
        dh_send_priv_b64: sess.dh_send_priv_b64,
        dh_send_pub_b64: sess.dh_send_pub_b64,
        dh_recv_pub_b64: sess.dh_recv_pub_b64,
        n_send: sess.n_send,
        n_recv: m.n + 1,
        pn: sess.pn,
        header_key_b64: sess.header_key_b64,
        skipped_keys: skipped,
        created_at: sess.created_at,
    };
    proof {
        broadcast use law_b64_reads_back;

        let list = passed_over(start, m.dh_pub@, sess.n_recv, count);
        assert forall|i: u32|
            sess.n_recv <= i < m.n && m.n - i <= MAX_SKIPPED_KEYS implies #[trigger] key_kept(
            session@,
            m.dh_pub@,
            i,
            message_key(chain_after(start, (i - sess.n_recv) as nat)),
        ) by {
            let k = i - sess.n_recv;
            law_stored_found(before, list, k);
            assert(list[k].0 == skip_name(m.dh_pub@, i));
            assert(message_key(chain_after(start, k as nat)).len() == KEY_LEN);
        }
    }
    Ok(Received::Delivered { session, plaintext, from_skipped: false })
}

fn receive_by_kept_key(sess: Session, m: &DrMessage, text: &str) -> (r: Result<Received, MeshError>)
    ensures
        res_view(r) == received_by_kept_key(sess@, m@, text@),
        r matches Ok(Received::Delivered { session, .. }) ==> found(
            session@.skipped_keys,
            skip_name(m.dh_pub@, m.n),
        ) is None,
{
    let mut mk = b64_decode_key(text, MeshError::MessageKeyLength)?;
    let opened = xdec(&mk, &m.body_nonce, m.body_ct.as_slice(), m.header_ct.as_slice());
    wipe_key(&mut mk);
    let plaintext = match opened {
        Ok(pt) => pt,
        Err(_) => {
            return Ok(Received::Rejected(Rejection::SkippedDecrypt));
        },
    };
    let mut session = sess;
    let name = skip_key(&m.dh_pub, m.n);
    session.skipped_keys.remove(name.as_str());
    Ok(Received::Delivered { session, plaintext, from_skipped: true })
}

/// The session whose receiving chain a message is read on: after the step of the ratchet, if the
/// message calls for one.
pub open spec fn reading_session(
    s: SessionView,
    m: DrView,
    my_fp: Seq<char>,
    fresh: Seq<u8>,
) -> SessionView {
    if ratchet_due(s, m, my_fp) == Ok::<bool, MeshError>(true) {
        ratcheted(s, m.dh_pub, m.pn, fresh)->Ok_0
    } else {
        s
    }
}

/// The keys that are kept when a message is delivered on its chain: those of the messages still to
/// come of a chain that ends, and those of the messages that are passed over.
pub open spec fn newly_kept(s: SessionView, m: DrView, my_fp: Seq<char>, fresh: Seq<u8>) -> Seq<
    (Seq<char>, Seq<char>),
> {
    let t = reading_session(s, m, my_fp, fresh);
    let ck = decoded(recv_chain_text(t)->Ok_0)->Ok_0;
    let passed = passed_over(ck, m.dh_pub, t.n_recv, (m.n - t.n_recv) as nat);
    if ratchet_due(s, m, my_fp) == Ok::<bool, MeshError>(true) {
        rest_of_chain(s, m.pn) + passed
    } else {
        passed
    }
}

/// A delivery on the chain stores the keys that it newly keeps, one after the other, and no two of
/// them under one name.
pub proof fn lemma_newly_kept(
    s: SessionView,
    m: DrView,
    my_fp: Seq<char>,
    fresh: Seq<u8>,
    session: SessionView,
    plaintext: Seq<u8>,
)
    requires
        received(s, m, my_fp, fresh) == Ok::<ReceivedView, MeshError>(
            ReceivedView::Delivered { session, plaintext, from_skipped: false },
        ),
    ensures
        session.skipped_keys == stored_all(s.skipped_keys, newly_kept(s, m, my_fp, fresh)),
        distinct(newly_kept(s, m, my_fp, fresh)),
{
    broadcast use law_b64_reads_back;

    let t = reading_session(s, m, my_fp, fresh);
    let ck = decoded(recv_chain_text(t)->Ok_0)->Ok_0;
    let count = (m.n - t.n_recv) as nat;
    let passed = passed_over(ck, m.dh_pub, t.n_recv, count);
    lemma_passed_over_names(ck, m.dh_pub, t.n_recv, count);
    if takes_step(s, m, my_fp) {
        let rest = rest_of_chain(s, m.pn);
        let list = rest + passed;
        lemma_rest_names(s, m, my_fp);
        lemma_stored_all_append(s.skipped_keys, rest, passed);
        assert forall|i: int, j: int| 0 <= i < j < list.len() implies (#[trigger] list[i]).0 != (
        #[trigger] list[j]).0 by {
            if j < rest.len() {
                assert(rest[i].0 != rest[j].0);
            } else if i < rest.len() {
                let k = j - rest.len();
                assert(passed[k].0 == skip_name(m.dh_pub, (t.n_recv + k) as u32));
                assert(rest[i].0 != skip_name(m.dh_pub, (t.n_recv + k) as u32));
            } else {
                assert(passed[i - rest.len()].0 != passed[j - rest.len()].0);
            }
        }
    }
}

/// The keys that a chain left behind when it ended are at hand afterwards.
proof fn lemma_ended_keys_kept(
    s: SessionView,
    m: DrView,
    my_fp: Seq<char>,
    fresh: Seq<u8>,
    session: SessionView,
    plaintext: Seq<u8>,
)
    requires
        received(s, m, my_fp, fresh) == Ok::<ReceivedView, MeshError>(
            ReceivedView::Delivered { session, plaintext, from_skipped: false },
        ),
        takes_step(s, m, my_fp),
        rest_sized(s, m.pn),
        distinct(s.skipped_keys),
        s.skipped_keys.len() <= MAX_SKIPPED_KEYS,
    ensures
        ended_keys_kept(session, s, m),
{
    broadcast use law_b64_reads_back;

    let list = newly_kept(s, m, my_fp, fresh);
    let rest = rest_of_chain(s, m.pn);
    lemma_newly_kept(s, m, my_fp, fresh, session, plaintext);
    if let Some((ck, dh)) = ending_chain(s) {
        assert forall|i: u32|
            s.n_recv <= i < chain_end(m.pn) && chain_end(m.pn) - i + m.n
                <= MAX_SKIPPED_KEYS implies #[trigger] key_kept(
            session,
            dh,
            i,
            message_key(chain_after(ck, (i - s.n_recv) as nat)),
        ) by {
            let k = i - s.n_recv;
            assert(list[k] == rest[k]);
            assert(list.len() == rest.len() + m.n);
            law_stored_found(s.skipped_keys, list, k);
            assert(list[k].0 == skip_name(dh, i));
            assert(message_key(chain_after(ck, k as nat)).len() == KEY_LEN);
        }
    }
}

/// After `m` was delivered on its chain to the session `s`, the key of every message that it
/// overtook is at hand, on this chain and on the one that it ended, as many as are kept.
pub open spec fn overtaken_keys_kept(
    after: SessionView,
    s: SessionView,
    m: DrView,
    my_fp: Seq<char>,
    fresh: Seq<u8>,
) -> bool {
    let t = reading_session(s, m, my_fp, fresh);
    &&& keys_kept(after, m, decoded(recv_chain_text(t)->Ok_0)->Ok_0, t.n_recv)
    &&& takes_step(s, m, my_fp) ==> ended_keys_kept(after, s, m)
}

/// A message that has been delivered, on a chain that still stands: its number was passed, no key
/// is kept for it, and it calls for no step of the ratchet.
pub open spec fn spent(s: SessionView, m: DrView, my_fp: Seq<char>) -> bool {
    &&& m.n <= MAX_MESSAGE_NUMBER
    &&& m.n < s.n_recv
    &&& found(s.skipped_keys, skip_name(m.dh_pub, m.n)) is None
    &&& ratchet_due(s, m, my_fp) == Ok::<bool, MeshError>(false)
    &&& recv_chain_text(s) is Ok
}

/// A message that is spent is old: it is not delivered again, and the session stays as it was.
pub proof fn law_spent_is_rejected(s: SessionView, m: DrView, my_fp: Seq<char>, fresh: Seq<u8>)
    requires
        spent(s, m, my_fp),
    ensures
        received(s, m, my_fp, fresh) == Ok::<ReceivedView, MeshError>(
            ReceivedView::Rejected(Rejection::OldNumber),
        ),
{
}

/// The key kept for a message belongs to the chain that messages are read on at present.
pub open spec fn kept_on_chain(s: SessionView, m: DrView, my_fp: Seq<char>) -> bool {
    &&& m.n < s.n_recv
    &&& ratchet_due(s, m, my_fp) == Ok::<bool, MeshError>(false)
    &&& recv_chain_text(s) is Ok
}

/// A message that was delivered is spent, and so a second copy is rejected: after a delivery on the
/// chain at all times, after one under a kept key where that key was of the present chain.
pub proof fn law_no_replay(
    s: SessionView,
    m: DrView,
    my_fp: Seq<char>,
    fresh: Seq<u8>,
    session: SessionView,
    plaintext: Seq<u8>,
    from_skipped: bool,
    again: Seq<u8>,
)
    requires
        received(s, m, my_fp, fresh) == Ok::<ReceivedView, MeshError>(
            ReceivedView::Delivered { session, plaintext, from_skipped },
        ),
        from_skipped ==> kept_on_chain(s, m, my_fp),
    ensures
        spent(session, m, my_fp),
        received(session, m, my_fp, again) == Ok::<ReceivedView, MeshError>(
            ReceivedView::Rejected(Rejection::OldNumber),
        ),
{
    broadcast use law_b64_reads_back;

    let name = skip_name(m.dh_pub, m.n);
    if from_skipped {
        lemma_without(s.skipped_keys, name);
        lemma_found_absent(without(s.skipped_keys, name), name);
    } else {
        let t = reading_session(s, m, my_fp, fresh);
        let ck = decoded(recv_chain_text(t)->Ok_0)->Ok_0;
        let count = (m.n - t.n_recv) as nat;
        let list = passed_over(ck, m.dh_pub, t.n_recv, count);
        lemma_passed_over_names(ck, m.dh_pub, t.n_recv, count);
        assert(found(s.skipped_keys, name) is None);
        if takes_step(s, m, my_fp) {
            lemma_step_absent(s, m, my_fp, m.n);
        }
        assert(found(t.skipped_keys, name) is None);
        assert forall|i: int| 0 <= i < list.len() implies (#[trigger] list[i]).0 != name by {}
        lemma_stored_all_absent(t.skipped_keys, list, name);
        assert(session.skipped_keys == stored_all(t.skipped_keys, list));
    }
}

/// A message stays spent while other messages are delivered, until one of them takes a step of the
/// ratchet.
pub proof fn law_spent_stays(
    s: SessionView,
    m: DrView,
    my_fp: Seq<char>,
    next: DrView,
    fresh: Seq<u8>,
    session: SessionView,
    plaintext: Seq<u8>,
    from_skipped: bool,
)
    requires
        spent(s, m, my_fp),
        !takes_step(s, next, my_fp),
        received(s, next, my_fp, fresh) == Ok::<ReceivedView, MeshError>(
            ReceivedView::Delivered { session, plaintext, from_skipped },
        ),
    ensures
        spent(session, m, my_fp),
{
    let name = skip_name(m.dh_pub, m.n);
    if from_skipped {
        lemma_without_absent(s.skipped_keys, skip_name(next.dh_pub, next.n), name);
    } else {
        let ck = decoded(recv_chain_text(s)->Ok_0)->Ok_0;
        let count = (next.n - s.n_recv) as nat;
        let list = passed_over(ck, next.dh_pub, s.n_recv, count);
        assert forall|i: int| 0 <= i < list.len() implies (#[trigger] list[i]).0 != name by {
            if list[i].0 == name {
                lemma_skip_name_injective(next.dh_pub, (s.n_recv + i) as u32, m.dh_pub, m.n);
            }
        }
        lemma_stored_all_absent(s.skipped_keys, list, name);
    }
}

/// No key is kept anew for a spent message when another one takes a step of the ratchet to another
/// ratchet key than its own: a copy of it finds no key afterwards.
pub proof fn law_spent_key_stays_gone(
    s: SessionView,
    m: DrView,
    my_fp: Seq<char>,
    next: DrView,
    fresh: Seq<u8>,
    session: SessionView,
    plaintext: Seq<u8>,
)
    requires
        spent(s, m, my_fp),
        takes_step(s, next, my_fp),
        next.dh_pub != m.dh_pub,
        received(s, next, my_fp, fresh) == Ok::<ReceivedView, MeshError>(
            ReceivedView::Delivered { session, plaintext, from_skipped: false },
        ),
    ensures
        found(session.skipped_keys, skip_name(m.dh_pub, m.n)) is None,
{
    broadcast use law_b64_reads_back;

    let name = skip_name(m.dh_pub, m.n);
    let rest = rest_of_chain(s, next.pn);
    let list = newly_kept(s, next, my_fp, fresh);
    lemma_newly_kept(s, next, my_fp, fresh, session, plaintext);
    assert forall|i: int| 0 <= i < list.len() implies (#[trigger] list[i]).0 != name by {
        if list[i].0 == name {
            if i < rest.len() {
                let (_ck, dh) = ending_chain(s)->0;
                assert(rest[i].0 == skip_name(dh, (s.n_recv + i) as u32));
                lemma_skip_name_injective(dh, (s.n_recv + i) as u32, m.dh_pub, m.n);
            } else {
                let k = i - rest.len();
                lemma_skip_name_injective(next.dh_pub, k as u32, m.dh_pub, m.n);
            }
        }
    }
    lemma_stored_all_absent(s.skipped_keys, list, name);
}

/// A message under another ratchet key than the peer's present one, such as a copy of a message
/// from a chain that has ended, is rejected where it does not open under the key that a step of the
/// ratchet would give it.
pub proof fn law_stale_message_is_rejected(
    s: SessionView,
    m: DrView,
    my_fp: Seq<char>,
    fresh: Seq<u8>,
)
    requires
        takes_step(s, m, my_fp),
        ratcheted(s, m.dh_pub, m.pn, fresh) is Ok,
        decoded_key(s.header_key_b64, MeshError::HeaderKeyLength) is Ok,
        xopened(
            message_key(
                chain_after(
                    root_chain(
                        decoded(s.root_key_b64)->Ok_0,
                        x25519(
                            decoded_key(s.dh_send_priv_b64, MeshError::DhPrivateLength)->Ok_0,
                            m.dh_pub,
                        ),
                    ),
                    m.n as nat,
                ),
            ),
            m.body_nonce,
            m.body_ct,
            m.header_ct,
        ) is None,
    ensures
        received(s, m, my_fp, fresh) == Ok::<ReceivedView, MeshError>(
            ReceivedView::Rejected(Rejection::BodyDecrypt),
        ),
{
    broadcast use law_b64_reads_back;

}

/// Receives a message of a session; `fresh` is the private key for a step of the ratchet, if one is
/// due. A second copy of a message that was delivered on its chain is old; a key that was kept and
/// used is gone; and the keys of the messages that were passed over, on this chain or on the one
/// that it ended, are at hand afterwards. A reply to this session is read, and the two sides are
/// then ready for the next turn.
pub fn receive_dr(sess: Session, m: &DrMessage, my_fp: &str, fresh: &[u8; 32]) -> (r: Result<
    Received,
    MeshError,
>)
    ensures
        res_view(r) == received(sess@, m@, my_fp@, fresh@),
        r matches Ok(Received::Delivered { session, from_skipped, .. }) ==> {
            if from_skipped {
                &&& found(session@.skipped_keys, skip_name(m.dh_pub@, m.n)) is None
                &&& kept_on_chain(sess@, m@, my_fp@) ==> spent(session@, m@, my_fp@)
            } else {
                &&& spent(session@, m@, my_fp@)
                &&& forall|again: Seq<u8>|
                    #[trigger] received(session@, m@, my_fp@, again) == Ok::<
                        ReceivedView,
                        MeshError,
                    >(ReceivedView::Rejected(Rejection::OldNumber))
                &&& overtaken_keys_kept(session@, sess@, m@, my_fp@, fresh@)
            }
        },
        forall|b: SessionView, b_fresh: Seq<u8>, after: SessionView, body: Seq<u8>|
            #[trigger] replies(sess@, m@, my_fp@, b, b_fresh, after, body) ==> reads_reply(
                res_view(r),
                after,
                body,
            ),
{
    let ghost before = sess@;
    proof {
        broadcast use law_b64_reads_back;

        assert forall|b: SessionView, b_fresh: Seq<u8>, after: SessionView, body: Seq<u8>|
            #[trigger] replies(before, m@, my_fp@, b, b_fresh, after, body) implies takes_step(
            before,
            m@,
            my_fp@,
        ) && ratcheted(before, m@.dh_pub, m@.pn, fresh@) is Ok && m@.dh_pub == x25519_public(
            b_fresh,
        ) && b_fresh.len() == KEY_LEN by {}
    }
    if m.n > MAX_MESSAGE_NUMBER {
        return Ok(Received::Rejected(Rejection::NumberTooLarge));
    }
    let name = skip_key(&m.dh_pub, m.n);
    if let Some(text) = sess.skipped_keys.get(name.as_str()) {
        let r = receive_by_kept_key(sess, m, text.as_str());
        proof {
            if let Ok(ReceivedView::Delivered { session, plaintext, from_skipped }) = res_view(r) {
                if kept_on_chain(before, m@, my_fp@) {
                    law_no_replay(before, m@, my_fp@, fresh@, session, plaintext, true, fresh@);
                }
            }
        }
        return r;
    }
    let due: bool = need_ratchet(&sess, m, my_fp)?;
    let reading = if due {
        ratchet_receive(sess, &m.dh_pub, m.pn, fresh)?
    } else {
        sess
    };
    proof {
        lemma_stored_all(before.skipped_keys, rest_of_chain(before, m.pn));
    }
    let r = receive_on_chain(reading, m);
    proof {
        if let Ok(ReceivedView::Delivered { session, plaintext, from_skipped }) = res_view(r) {
            assert forall|again: Seq<u8>|
                #[trigger] received(session, m@, my_fp@, again) == Ok::<
                    ReceivedView,
                    MeshError,
                >(ReceivedView::Rejected(Rejection::OldNumber)) by {
                law_no_replay(before, m@, my_fp@, fresh@, session, plaintext, false, again);
            }
            law_no_replay(before, m@, my_fp@, fresh@, session, plaintext, false, fresh@);
            if due {
                lemma_ended_keys_kept(before, m@, my_fp@, fresh@, session, plaintext);
            }
        }
        assert forall|b: SessionView, b_fresh: Seq<u8>, after: SessionView, body: Seq<u8>|
            #[trigger] replies(before, m@, my_fp@, b, b_fresh, after, body) implies reads_reply(
            res_view(r),
            after,
            body,
        ) by {
            law_reply(before, b, b_fresh, after, m@, body, my_fp@, fresh@);
        }
    }
    r
}

/// Whether receiving a message takes a step of the ratchet.
pub open spec fn takes_step(s: SessionView, m: DrView, my_fp: Seq<char>) -> bool {
    &&& m.n <= MAX_MESSAGE_NUMBER
    &&& found(s.skipped_keys, skip_name(m.dh_pub, m.n)) is None
    &&& ratchet_due(s, m, my_fp) == Ok::<bool, MeshError>(true)
}

/// A key that is kept stays at hand while other messages are delivered, as long as there is room
/// for the keys that are kept for them.
pub proof fn law_kept_key_stays(
    s: SessionView,
    dh: Seq<u8>,
    n: u32,
    mk: Seq<u8>,
    next: DrView,
    my_fp: Seq<char>,
    fresh: Seq<u8>,
    session: SessionView,
    plaintext: Seq<u8>,
    from_skipped: bool,
)
    requires
        key_kept(s, dh, n, mk),
        distinct(s.skipped_keys),
        received(s, next, my_fp, fresh) == Ok::<ReceivedView, MeshError>(
            ReceivedView::Delivered { session, plaintext, from_skipped },
        ),
        from_skipped ==> next.dh_pub != dh || next.n != n,
        !from_skipped ==> {
            let list = newly_kept(s, next, my_fp, fresh);
            &&& s.skipped_keys.len() + list.len() <= MAX_SKIPPED_KEYS
            &&& forall|i: int| 0 <= i < list.len() ==> (#[trigger] list[i]).0 != skip_name(dh, n)
        },
    ensures
        key_kept(session, dh, n, mk),
{
    let name = skip_name(dh, n);
    if from_skipped {
        if name == skip_name(next.dh_pub, next.n) {
            lemma_skip_name_injective(dh, n, next.dh_pub, next.n);
        }
        lemma_without_keeps(s.skipped_keys, skip_name(next.dh_pub, next.n), name);
    } else {
        lemma_newly_kept(s, next, my_fp, fresh, session, plaintext);
        lemma_stored_all_keeps(s.skipped_keys, newly_kept(s, next, my_fp, fresh), name);
    }
}

/// All that a session stores can be used: its keys are base64 of the right lengths.
pub open spec fn sound_session(s: SessionView) -> bool {
    &&& b64_bytes(s.root_key_b64) is Some
    &&& b64_bytes(s.dh_send_priv_b64) matches Some(key) && key.len() == 32
    &&& b64_bytes(s.header_key_b64) matches Some(key) && key.len() == 32
    &&& s.chain_recv_b64 matches Some(text) ==> b64_bytes(text) is Some
    &&& s.dh_recv_pub_b64 matches Some(text) ==> b64_bytes(text) is Some
    &&& forall|name: Seq<char>|
        (#[trigger] found(s.skipped_keys, name)) matches Some(text) ==> (b64_bytes(
            text,
        ) matches Some(key) && key.len() == 32)
}

/// A sound session takes or rejects every message; none is an error.
pub proof fn law_sound_session_has_no_errors(
    s: SessionView,
    m: DrView,
    my_fp: Seq<char>,
    fresh: Seq<u8>,
)
    requires
        sound_session(s),
    ensures
        received(s, m, my_fp, fresh) is Ok,
{
    broadcast use law_b64_reads_back;

    assert(found(s.skipped_keys, skip_name(m.dh_pub, m.n)) matches Some(text) ==> (b64_bytes(
        text,
    ) matches Some(key) && key.len() == 32));
}

/// A message whose number is over the limit is rejected for it, and no other message is.
pub proof fn law_numbers_over_the_limit(
    s: SessionView,
    m: DrView,
    my_fp: Seq<char>,
    fresh: Seq<u8>,
)
    ensures
        received(s, m, my_fp, fresh) == Ok::<ReceivedView, MeshError>(
            ReceivedView::Rejected(Rejection::NumberTooLarge),
        ) <==> m.n > 10000,
{
}

/// What becomes of a message that calls for no step of the ratchet and has no key kept for it, by
/// the place of its number and by whether it opens under the key of that number: it is old, it does
/// not open, or it is delivered, and nothing else.
pub proof fn law_what_becomes_of_a_message(
    s: SessionView,
    m: DrView,
    my_fp: Seq<char>,
    fresh: Seq<u8>,
    ck: Seq<u8>,
)
    requires
        sound_session(s),
        !new_ratchet_key(s, m, my_fp),
        found(s.skipped_keys, skip_name(m.dh_pub, m.n)) is None,
        s.chain_recv_b64 matches Some(text) && b64_bytes(text) == Some(ck),
        m.n <= 10000,
    ensures
        m.n < s.n_recv ==> received(s, m, my_fp, fresh) == Ok::<ReceivedView, MeshError>(
            ReceivedView::Rejected(Rejection::OldNumber),
        ),
        m.n >= s.n_recv ==> {
            let mk = message_key(chain_after(ck, (m.n - s.n_recv) as nat));
            match xopened(mk, m.body_nonce, m.body_ct, m.header_ct) {
                None => received(s, m, my_fp, fresh) == Ok::<ReceivedView, MeshError>(
                    ReceivedView::Rejected(Rejection::BodyDecrypt),
                ),
                Some(body) => received(s, m, my_fp, fresh) matches Ok(ReceivedView::Delivered {
                    session,
                    plaintext,
                    from_skipped,
                }) && plaintext == body && !from_skipped && session.n_recv == m.n + 1,
            }
        },
{
    law_step_for_a_new_key(s, m, my_fp);
    law_step_can_be_told(s, m, my_fp);
}

/// What becomes of a message that calls for a step of the ratchet and has no key kept for it: it is
/// delivered where, and only where, it opens under the key of its number on the chain that the step
/// gives.
pub proof fn law_what_becomes_of_a_new_key(
    s: SessionView,
    m: DrView,
    my_fp: Seq<char>,
    fresh: Seq<u8>,
)
    requires
        sound_session(s),
        new_ratchet_key(s, m, my_fp),
        found(s.skipped_keys, skip_name(m.dh_pub, m.n)) is None,
        m.n <= 10000,
    ensures
        ({
            let secret = x25519(b64_bytes(s.dh_send_priv_b64)->0, m.dh_pub);
            let ck = root_chain(b64_bytes(s.root_key_b64)->0, secret);
            match xopened(
                message_key(chain_after(ck, m.n as nat)),
                m.body_nonce,
                m.body_ct,
                m.header_ct,
            ) {
                None => received(s, m, my_fp, fresh) == Ok::<ReceivedView, MeshError>(
                    ReceivedView::Rejected(Rejection::BodyDecrypt),
                ),
                Some(body) => received(s, m, my_fp, fresh) matches Ok(ReceivedView::Delivered {
                    session,
                    plaintext,
                    from_skipped,
                }) && plaintext == body && !from_skipped && session.n_recv == m.n + 1,
            }
        }),
{
    broadcast use law_b64_reads_back;

    law_step_for_a_new_key(s, m, my_fp);
}

/// What becomes of a message for which a key is kept, whatever else it says: it is delivered where
/// it opens under that key, which is then gone, and rejected where it does not.
pub proof fn law_what_becomes_of_a_late_message(
    s: SessionView,
    m: DrView,
    my_fp: Seq<char>,
    fresh: Seq<u8>,
    mk: Seq<u8>,
)
    requires
        found(s.skipped_keys, skip_name(m.dh_pub, m.n)) matches Some(text) && b64_bytes(text)
            == Some(mk),
        mk.len() == 32,
        m.n <= 10000,
    ensures
        match xopened(mk, m.body_nonce, m.body_ct, m.header_ct) {
            None => received(s, m, my_fp, fresh) == Ok::<ReceivedView, MeshError>(
                ReceivedView::Rejected(Rejection::SkippedDecrypt),
            ),
            Some(body) => received(s, m, my_fp, fresh) matches Ok(ReceivedView::Delivered {
                session,
                plaintext,
                from_skipped,
            }) && plaintext == body && from_skipped && found(
                session.skipped_keys,
                skip_name(m.dh_pub, m.n),
            ) is None,
        },
{
    let name = skip_name(m.dh_pub, m.n);
    lemma_without(s.skipped_keys, name);
    lemma_found_absent(without(s.skipped_keys, name), name);
}

/// What is delivered was sealed under a key that the session has for the message: the one that is
/// kept for it, or the one of its number on the chain that it is read on. The header counts: what
/// was sealed with another does not open.
pub proof fn law_delivered_opens(
    s: SessionView,
    m: DrView,
    my_fp: Seq<char>,
    fresh: Seq<u8>,
    session: SessionView,
    plaintext: Seq<u8>,
    from_skipped: bool,
)
    requires
        received(s, m, my_fp, fresh) == Ok::<ReceivedView, MeshError>(
            ReceivedView::Delivered { session, plaintext, from_skipped },
        ),
    ensures
        m.n <= 10000,
        from_skipped ==> {
            let kept = found(s.skipped_keys, skip_name(m.dh_pub, m.n));
            &&& kept is Some
            &&& b64_bytes(kept->0) matches Some(mk) && xopened(
                mk,
                m.body_nonce,
                m.body_ct,
                m.header_ct,
            ) == Some(plaintext)
        },
        !from_skipped ==> {
            let t = reading_session(s, m, my_fp, fresh);
            let ck = decoded(recv_chain_text(t)->Ok_0)->Ok_0;
            &&& b64_bytes(s.header_key_b64) matches Some(key) && key.len() == 32
            &&& t.n_recv <= m.n
            &&& xopened(
                message_key(chain_after(ck, (m.n - t.n_recv) as nat)),
                m.body_nonce,
                m.body_ct,
                m.header_ct,
            ) == Some(plaintext)
            &&& session.n_recv == m.n + 1
            &&& session.chain_recv_b64 matches Some(text) && b64_bytes(text) == Some(
                chain_after(ck, (m.n + 1 - t.n_recv) as nat),
            )
        },
{
    broadcast use law_b64_reads_back;

    if !from_skipped {
        let t = reading_session(s, m, my_fp, fresh);
        let ck = decoded(recv_chain_text(t)->Ok_0)->Ok_0;
        let count = (m.n - t.n_recv) as nat;
        assert(chain_after(ck, count + 1) == next_chain(chain_after(ck, count)));
    }
}

/// What a delivery leaves as it was: the header key, the number of the next message to send and the
/// time the session began, always; without a step of the ratchet also the root key, the sending
/// chain, the two ratchet keys and the length of the chain before; and under a kept key all but the
/// kept keys.
pub proof fn law_what_a_delivery_leaves(
    s: SessionView,
    m: DrView,
    my_fp: Seq<char>,
    fresh: Seq<u8>,
    session: SessionView,
    plaintext: Seq<u8>,
    from_skipped: bool,
)
    requires
        received(s, m, my_fp, fresh) == Ok::<ReceivedView, MeshError>(
            ReceivedView::Delivered { session, plaintext, from_skipped },
        ),
    ensures
        session.header_key_b64 == s.header_key_b64,
        session.n_send == s.n_send,
        session.created_at == s.created_at,
        from_skipped || !new_ratchet_key(s, m, my_fp) ==> {
            &&& session.root_key_b64 == s.root_key_b64
            &&& session.chain_send_b64 == s.chain_send_b64
            &&& session.dh_send_priv_b64 == s.dh_send_priv_b64
            &&& session.dh_send_pub_b64 == s.dh_send_pub_b64
            &&& session.dh_recv_pub_b64 == s.dh_recv_pub_b64
            &&& session.pn == s.pn
        },
        from_skipped ==> session.chain_recv_b64 == s.chain_recv_b64 && session.n_recv == s.n_recv,
{
    law_step_for_a_new_key(s, m, my_fp);
}

/// What a delivery after a step of the ratchet makes of the session: the peer's ratchet key is that
/// of the message, the own pair is the fresh one, the sending chain is gone and its length noted,
/// and the root key has moved on by the secret of the own old key and the peer's new one.
pub proof fn law_what_a_step_changes(
    s: SessionView,
    m: DrView,
    my_fp: Seq<char>,
    fresh: Seq<u8>,
    session: SessionView,
    plaintext: Seq<u8>,
)
    requires
        received(s, m, my_fp, fresh) == Ok::<ReceivedView, MeshError>(
            ReceivedView::Delivered { session, plaintext, from_skipped: false },
        ),
        new_ratchet_key(s, m, my_fp),
    ensures
        session.dh_recv_pub_b64 matches Some(text) && b64_bytes(text) == Some(m.dh_pub),
        b64_bytes(session.dh_send_priv_b64) == Some(fresh),
        b64_bytes(session.dh_send_pub_b64) == Some(x25519_public(fresh)),
        session.chain_send_b64 is None,
        session.pn == s.n_send,
        ({
            let rk = b64_bytes(s.root_key_b64)->0;
            let secret = x25519(b64_bytes(s.dh_send_priv_b64)->0, m.dh_pub);
            &&& b64_bytes(session.root_key_b64) == Some(next_root(rk, secret))
            &&& session.chain_recv_b64 matches Some(text) && b64_bytes(text) == Some(
                chain_after(root_chain(rk, secret), (m.n + 1) as nat),
            )
        }),
{
    broadcast use law_b64_reads_back;

    law_step_for_a_new_key(s, m, my_fp);
    law_delivered_opens(s, m, my_fp, fresh, session, plaintext, false);
}

/// A session without a receiving chain reads messages as if it stood at the first chain that its
/// root key gives.
pub proof fn law_missing_receiving_chain(
    s: SessionView,
    m: DrView,
    my_fp: Seq<char>,
    fresh: Seq<u8>,
    rk: Seq<u8>,
)
    requires
        s.chain_recv_b64 is None,
        b64_bytes(s.root_key_b64) == Some(rk),
        found(s.skipped_keys, skip_name(m.dh_pub, m.n)) is None,
    ensures
        received(s, m, my_fp, fresh) == received(
            SessionView {
                chain_recv_b64: Some(
                    b64url_text(hkdf_sha256(None, rk, "mesh-v3-chain".spec_bytes(), 32)),
                ),
                ..s
            },
            m,
            my_fp,
            fresh,
        ),
{
    broadcast use law_b64_reads_back;

    let full = SessionView {
        chain_recv_b64: Some(
            b64url_text(hkdf_sha256(None, rk, "mesh-v3-chain".spec_bytes(), 32)),
        ),
        ..s
    };
    assert(recv_chain_text(s) == recv_chain_text(full));
    assert(ending_chain(s) == ending_chain(full));
    assert(rest_of_chain(s, m.pn) == rest_of_chain(full, m.pn));
    if ratcheted(s, m.dh_pub, m.pn, fresh) is Ok {
        assert(ratcheted(s, m.dh_pub, m.pn, fresh)->Ok_0 =~= ratcheted(
            full,
            m.dh_pub,
            m.pn,
            fresh,
        )->Ok_0);
    }
}

/// Without a step of the ratchet, what is received does not depend on the fresh key.
pub proof fn law_fresh_key_unused(
    s: SessionView,
    m: DrView,
    my_fp: Seq<char>,
    one: Seq<u8>,
    other: Seq<u8>,
)
    requires
        !takes_step(s, m, my_fp),
    ensures
        received(s, m, my_fp, one) == received(s, m, my_fp, other),
{
}

/// Receives a message of a session, drawing a private key where a step of the ratchet is due.
pub fn receive_message(sess: Session, m: &DrMessage, my_fp: &str) -> (r: Result<
    Received,
    MeshError,
>)
    ensures
        (takes_step(sess@, m@, my_fp@) && res_view(r) == Err::<ReceivedView, MeshError>(
            MeshError::NoRandomness,
        )) || exists|fresh: Seq<u8>|
            fresh.len() == KEY_LEN && res_view(r) == #[trigger] received(
                sess@,
                m@,
                my_fp@,
                fresh,
            ),
{
    let kept = sess.skipped_keys.get(skip_key(&m.dh_pub, m.n).as_str());
    let due = match need_ratchet(&sess, m, my_fp) {
        Ok(d) => d,
        Err(_) => false,
    };
    let fresh: [u8; 32] = if due && kept.is_none() && m.n <= MAX_MESSAGE_NUMBER {
        let (private, _public) = generate_dh_keypair()?;
        private
    } else {
        [0u8;32]
    };
    receive_dr(sess, m, my_fp, &fresh)
}

} // verus!
