use ed25519_dalek::{Signer, SigningKey};
use mesh_crypto::conversation::{accept_session, open_conversation, plan_delivery, Delivery};
use mesh_crypto::encoding::{b64_encode, fp_from_bytes, hex_of};
use mesh_crypto::envelope::{encode_dr, parse_message, DrMessage, Inbound, InitKeys};
use mesh_crypto::error::MeshError;
use mesh_crypto::kdf::kdf_ck;
use mesh_crypto::receiving::{
    need_ratchet, ratchet_receive, receive_dr, receive_message, Received, Rejection,
    MAX_MESSAGE_NUMBER,
};
use mesh_crypto::sending::{
    message_text, ratchet_send, ready_to_send, seal_message, send_message,
};
use mesh_crypto::session::{start_accepted, start_session, Session, SESSION_LIFETIME};
use mesh_crypto::skipped::{SkippedKeys, MAX_SKIPPED_KEYS};
use mesh_crypto::x3dh::Bundle;
use x25519_dalek::{PublicKey, StaticSecret};

const ALICE_SEED: [u8; 32] = [1; 32];
const ALICE_X: [u8; 32] = [2; 32];
const BOB_SEED: [u8; 32] = [3; 32];
const BOB_X: [u8; 32] = [4; 32];
const BOB_SPK: [u8; 32] = [5; 32];
const BOB_OPK: [u8; 32] = [6; 32];

fn public(private: [u8; 32]) -> [u8; 32] {
    PublicKey::from(&StaticSecret::from(private)).to_bytes()
}

fn fp(seed: [u8; 32]) -> String {
    fp_from_bytes(&SigningKey::from_bytes(&seed).verifying_key().to_bytes())
}

fn bundle() -> Bundle {
    let key = SigningKey::from_bytes(&BOB_SEED);
    Bundle {
        x_id_pub: Some(b64_encode(&public(BOB_X))),
        x_id_sig: Some(b64_encode(&key.sign(&public(BOB_X)).to_bytes())),
        spk_pub: Some(b64_encode(&public(BOB_SPK))),
        spk_sig: Some(b64_encode(&key.sign(&public(BOB_SPK)).to_bytes())),
        spk_id: Some(1),
        opk_pub: Some(b64_encode(&public(BOB_OPK))),
        opk_id: Some(2),
    }
}

fn open() -> (Session, InitKeys) {
    open_conversation(&ALICE_X, &fp(ALICE_SEED), &fp(BOB_SEED), &bundle()).unwrap()
}

/// Sends a text and passes it over the wire.
fn send(alice: Session, init: Option<InitKeys>, text: &str) -> (Session, DrMessage) {
    let (after, m) =
        send_message(alice, &fp(ALICE_SEED), &public(ALICE_X), init, text).unwrap();
    match parse_message(&encode_dr(&m)) {
        Inbound::Dr(m) => (after, m),
        other => panic!("{:?}", other),
    }
}

fn accept(m: &DrMessage) -> Session {
    let init = m.init.unwrap();
    assert_eq!((init.spk_id, init.opk_id), (1, 2));
    accept_session(
        &BOB_X,
        &fp(BOB_SEED),
        m,
        &init,
        Some(&b64_encode(&BOB_SPK)),
        Some(&b64_encode(&BOB_OPK)),
    )
    .unwrap()
}

fn text_in(plaintext: &[u8]) -> String {
    let value: serde_json::Value = serde_json::from_slice(plaintext).unwrap();
    assert_eq!(value["from"].as_str(), Some(fp(ALICE_SEED).as_str()));
    value["text"].as_str().unwrap().to_string()
}

fn delivered(r: Result<Received, MeshError>) -> (Session, String, bool) {
    match r {
        Ok(Received::Delivered { session, plaintext, from_skipped }) => {
            (session, text_in(&plaintext), from_skipped)
        }
        other => panic!("{:?}", other),
    }
}

fn rejected(r: Result<Received, MeshError>) -> Rejection {
    match r {
        Ok(Received::Rejected(why)) => why,
        other => panic!("{:?}", other),
    }
}

fn receive(bob: Session, m: &DrMessage) -> Result<Received, MeshError> {
    receive_message(bob, m, &fp(BOB_SEED))
}

/// Two sessions in step, before any message.
fn pair() -> (Session, Session) {
    let alice = start_session(&[9; 32], &public(BOB_SPK), &[10; 32], &public([10; 32]), 50);
    let bob = start_accepted(&[9; 32], &public([10; 32]), &[11; 32], &public([11; 32]), 60);
    (alice, bob)
}

#[test]
fn first_message_arrives() {
    let (alice, init) = open();
    let (alice, m) = send(alice, Some(init), "hello");
    assert_eq!((m.n, m.pn, alice.n_send), (0, 0, 1));
    let (bob, text, from_skipped) = delivered(receive(accept(&m), &m));
    assert_eq!(text, "hello");
    assert!(!from_skipped);
    assert_eq!(bob.n_recv, 1);
    assert_eq!(bob.chain_recv_b64, alice.chain_send_b64);
}

#[test]
fn messages_arrive_in_order() {
    let (mut alice, mut bob) = pair();
    for i in 0..20u32 {
        let (after, m) = send(alice, None, &format!("message {}", i));
        alice = after;
        let (next, text, from_skipped) = delivered(receive(bob, &m));
        bob = next;
        assert_eq!(text, format!("message {}", i));
        assert!(!from_skipped);
    }
    assert_eq!((alice.n_send, bob.n_recv), (20, 20));
    assert_eq!(bob.skipped_keys.len(), 0);
}

#[test]
fn body_is_json_with_text_and_numbers() {
    let (alice, bob) = pair();
    let (_, m) = seal_message(
        alice,
        &fp(ALICE_SEED),
        &public(ALICE_X),
        None,
        "a \"quoted\" \u{1f600} text\n",
        &[1; 24],
        &[2; 24],
        1234,
    )
    .unwrap();
    match receive_dr(bob, &m, &fp(BOB_SEED), &[0; 32]) {
        Ok(Received::Delivered { plaintext, .. }) => {
            let v: serde_json::Value = serde_json::from_slice(&plaintext).unwrap();
            assert_eq!(v["text"].as_str(), Some("a \"quoted\" \u{1f600} text\n"));
            assert_eq!(v["ts"].as_i64(), Some(1234));
            assert_eq!(v["n"].as_u64(), Some(0));
            assert_eq!(v["pn"].as_u64(), Some(0));
            assert_eq!(v.as_object().unwrap().len(), 5);
        }
        other => panic!("{:?}", other),
    }
}

#[test]
fn header_is_encrypted_json() {
    let (alice, _) = pair();
    let header_key = alice.header_key().unwrap();
    let (_, m) = seal_message(
        alice, &fp(ALICE_SEED), &public(ALICE_X), None, "x", &[1; 24], &[2; 24], 0,
    )
    .unwrap();
    let header = mesh_crypto::kdf::xdec(&header_key, &[1; 24], &m.header_ct, b"").unwrap();
    let expected = format!("{{\"dh\":\"{}\",\"n\":0,\"pn\":0}}", b64_encode(&m.dh_pub));
    assert_eq!(String::from_utf8(header).unwrap(), expected);
}

#[test]
fn messages_out_of_order() {
    let (alice, bob) = pair();
    let (alice, m0) = send(alice, None, "zero");
    let (alice, m1) = send(alice, None, "one");
    let (_, m2) = send(alice, None, "two");
    let (bob, text, _) = delivered(receive(bob, &m2));
    assert_eq!(text, "two");
    assert_eq!(bob.skipped_keys.len(), 2);
    let name = format!("{}-1", hex_of(&m1.dh_pub));
    assert!(bob.skipped_keys.get(&name).is_some());
    let (bob, text, from_skipped) = delivered(receive(bob, &m1));
    assert_eq!((text.as_str(), from_skipped), ("one", true));
    assert!(bob.skipped_keys.get(&name).is_none());
    assert_eq!(rejected(receive(bob.clone(), &m1)), Rejection::OldNumber);
    let (bob, text, _) = delivered(receive(bob, &m0));
    assert_eq!(text, "zero");
    assert_eq!((bob.n_recv, bob.skipped_keys.len()), (3, 0));
}

#[test]
fn replayed_message_is_rejected() {
    let (alice, bob) = pair();
    let (_, m) = send(alice, None, "once");
    let (bob, _, _) = delivered(receive(bob, &m));
    assert_eq!(rejected(receive(bob, &m)), Rejection::OldNumber);
}

#[test]
fn lost_messages_do_not_matter() {
    let (mut alice, bob) = pair();
    for _ in 0..5 {
        alice = send(alice, None, "lost").0;
    }
    let (_, m) = send(alice, None, "found");
    let (bob, text, _) = delivered(receive(bob, &m));
    assert_eq!(text, "found");
    assert_eq!((bob.n_recv, bob.skipped_keys.len()), (6, 5));
}

#[test]
fn only_the_newest_skipped_keys_are_kept() {
    let (mut alice, bob) = pair();
    let gap = MAX_SKIPPED_KEYS + 2;
    let mut early = Vec::new();
    for _ in 0..gap {
        let (after, m) = send(alice, None, "early");
        alice = after;
        early.push(m);
    }
    let (_, late) = send(alice, None, "late");
    let (bob, _, _) = delivered(receive(bob, &late));
    assert_eq!(bob.skipped_keys.len(), MAX_SKIPPED_KEYS);
    assert_eq!(rejected(receive(bob.clone(), &early[1])), Rejection::OldNumber);
    let (_, text, from_skipped) = delivered(receive(bob, &early[2]));
    assert_eq!((text.as_str(), from_skipped), ("early", true));
}

#[test]
fn numbers_over_the_limit_are_rejected() {
    let (mut alice, bob) = pair();
    alice.n_send = MAX_MESSAGE_NUMBER + 1;
    let (_, m) = send(alice, None, "far");
    assert_eq!(rejected(receive(bob, &m)), Rejection::NumberTooLarge);
    assert_eq!(MAX_MESSAGE_NUMBER, 10000);
}

#[test]
fn highest_number_is_accepted() {
    let (mut alice, mut bob) = pair();
    alice.n_send = MAX_MESSAGE_NUMBER;
    bob.n_recv = MAX_MESSAGE_NUMBER;
    let (_, m) = send(alice, None, "last");
    let (bob, text, _) = delivered(receive(bob, &m));
    assert_eq!((text.as_str(), bob.n_recv), ("last", MAX_MESSAGE_NUMBER + 1));
}

#[test]
fn tampered_messages_are_rejected() {
    let (alice, bob) = pair();
    let (alice, m0) = send(alice, None, "zero");
    let (_, m1) = send(alice, None, "one");
    let mut bad = m1.clone();
    bad.body_ct[0] ^= 1;
    assert_eq!(rejected(receive(bob.clone(), &bad)), Rejection::BodyDecrypt);
    let mut bad = m1.clone();
    bad.header_ct[0] ^= 1;
    assert_eq!(rejected(receive(bob.clone(), &bad)), Rejection::BodyDecrypt);
    let (bob, _, _) = delivered(receive(bob, &m1));
    let mut bad = m0.clone();
    bad.body_ct[0] ^= 1;
    assert_eq!(rejected(receive(bob.clone(), &bad)), Rejection::SkippedDecrypt);
    let (_, text, _) = delivered(receive(bob, &m0));
    assert_eq!(text, "zero");
}

#[test]
fn a_new_sending_chain_turns_the_ratchet() {
    let (mut alice, bob) = pair();
    alice.chain_send_b64 = None;
    alice.dh_recv_pub_b64 = Some(bob.dh_send_pub_b64.clone());
    alice.n_send = 4;
    let alice = ratchet_send(alice, &[77; 32]).unwrap();
    assert_eq!((alice.n_send, alice.pn), (0, 4));
    assert_eq!(alice.dh_send_pub_bytes(), Ok(public([77; 32])));
    let (alice, m) = send(alice, None, "turned");
    assert_eq!((m.n, m.pn), (0, 4));
    assert_eq!(need_ratchet(&bob, &m, &fp(BOB_SEED)), Ok(true));
    let old_pair = bob.dh_send_pub_b64.clone();
    let (bob, text, _) = delivered(receive_dr(bob, &m, &fp(BOB_SEED), &[88; 32]));
    assert_eq!(text, "turned");
    assert_eq!(bob.root_key_b64, alice.root_key_b64);
    assert_eq!(bob.dh_send_pub_bytes(), Ok(public([88; 32])));
    assert_ne!(bob.dh_send_pub_b64, old_pair);
    assert_eq!(bob.dh_recv_pub_bytes(), Ok(Some(public([77; 32]))));
    let (_, m) = send(alice, None, "again");
    assert_eq!(need_ratchet(&bob, &m, &fp(BOB_SEED)), Ok(false));
    assert_eq!(delivered(receive(bob, &m)).1, "again");
}

#[test]
fn ready_to_send_starts_a_chain_only_where_there_is_none() {
    let (alice, _) = pair();
    let before = alice.chain_send_b64.clone();
    assert_eq!(ready_to_send(alice).unwrap().chain_send_b64, before);
    let (mut alice, _) = pair();
    alice.chain_send_b64 = None;
    let started = ready_to_send(alice.clone()).unwrap();
    assert!(started.chain_send_b64.is_some());
    assert_ne!(started.dh_send_pub_b64, alice.dh_send_pub_b64);
    alice.dh_recv_pub_b64 = None;
    assert_eq!(ready_to_send(alice.clone()).err(), Some(MeshError::NoRatchetKey));
    assert_eq!(ratchet_send(alice, &[1; 32]).err(), Some(MeshError::NoRatchetKey));
}

/// Sends a text from either side, starting a chain where there is none.
fn answer(session: Session, seed: [u8; 32], x: [u8; 32], text: &str) -> (Session, DrMessage) {
    let ready = ready_to_send(session).unwrap();
    send_message(ready, &fp(seed), &public(x), None, text).unwrap()
}

fn text_of(r: Result<Received, MeshError>) -> (Session, String) {
    match r {
        Ok(Received::Delivered { session, plaintext, .. }) => {
            let value: serde_json::Value = serde_json::from_slice(&plaintext).unwrap();
            (session, value["text"].as_str().unwrap().to_string())
        }
        other => panic!("{:?}", other),
    }
}

#[test]
fn a_reply_takes_a_step_of_the_ratchet() {
    let (alice, init) = open();
    let (alice, first) = send(alice, Some(init), "hello");
    let bob = accept(&first);
    assert_eq!(bob.chain_send_b64, None);
    let (bob, _, _) = delivered(receive(bob, &first));
    assert_eq!(bob.chain_send_b64, None);
    let root = bob.root_key().unwrap();
    let (bob, reply) = answer(bob, BOB_SEED, BOB_X, "hi yourself");
    assert_ne!(bob.root_key().unwrap(), root);
    let b = StaticSecret::from(bob.dh_send_priv_bytes().unwrap());
    assert_eq!(reply.dh_pub, PublicKey::from(&b).to_bytes());
    let secret = b.diffie_hellman(&PublicKey::from(first.dh_pub)).to_bytes();
    let (next_root, chain) = mesh_crypto::kdf::kdf_rk(&root, &secret).unwrap();
    assert_eq!(bob.root_key(), Ok(next_root));
    let (_, key) = mesh_crypto::kdf::kdf_ck(&chain).unwrap();
    let key: [u8; 32] = key.try_into().unwrap();
    let body = mesh_crypto::kdf::xdec(&key, &reply.body_nonce, &reply.body_ct, &reply.header_ct);
    let (alice, text) = text_of(receive_message(alice, &reply, &fp(ALICE_SEED)));
    assert_eq!(text, "hi yourself");
    assert!(body.is_ok());
    assert_eq!(alice.root_key_b64, bob.root_key_b64);
    assert_eq!(alice.chain_send_b64, None);
}

#[test]
fn a_conversation_goes_back_and_forth() {
    let (alice, init) = open();
    let (mut alice, first) = send(alice, Some(init), "hello");
    let mut bob = delivered(receive(accept(&first), &first)).0;
    for turn in 0..5 {
        for part in 0..3 {
            let said = format!("bob {} {}", turn, part);
            let (after, m) = answer(bob, BOB_SEED, BOB_X, &said);
            bob = after;
            let (after, text) = text_of(receive_message(alice, &m, &fp(ALICE_SEED)));
            alice = after;
            assert_eq!(text, said);
        }
        for part in 0..3 {
            let said = format!("alice {} {}", turn, part);
            let (after, m) = answer(alice, ALICE_SEED, ALICE_X, &said);
            alice = after;
            let (after, text) = text_of(receive_message(bob, &m, &fp(BOB_SEED)));
            bob = after;
            assert_eq!(text, said);
        }
        assert_eq!(alice.root_key_b64, bob.root_key_b64);
    }
}

#[test]
fn messages_cross_and_both_arrive() {
    let (alice, init) = open();
    let (alice, first) = send(alice, Some(init), "hello");
    let bob = delivered(receive(accept(&first), &first)).0;
    let (alice, crossing) = send(alice, None, "one more");
    let (bob, reply) = answer(bob, BOB_SEED, BOB_X, "reply");
    let (bob, text) = text_of(receive(bob, &crossing));
    assert_eq!(text, "one more");
    let (alice, text) = text_of(receive_message(alice, &reply, &fp(ALICE_SEED)));
    assert_eq!(text, "reply");
    let (_, m) = answer(alice, ALICE_SEED, ALICE_X, "next");
    assert_eq!(text_of(receive(bob, &m)).1, "next");
}

/// Alice sends three messages of which Bob gets the first; Bob replies, and Alice answers on a new
/// chain. The sessions, the two messages that are late, and the messages of the new chain.
fn turn_with_late_messages(count: usize) -> (Session, Session, Vec<DrMessage>, Vec<DrMessage>) {
    let (alice, bob) = pair();
    let (alice, m0) = send(alice, None, "zero");
    let (alice, m1) = send(alice, None, "one");
    let (alice, m2) = send(alice, None, "two");
    let (bob, _, _) = delivered(receive(bob, &m0));
    let (bob, reply) = answer(bob, BOB_SEED, BOB_X, "reply");
    let (mut alice, _) = text_of(receive_message(alice, &reply, &fp(ALICE_SEED)));
    let mut turned = Vec::new();
    for _ in 0..count {
        let (after, m) = answer(alice, ALICE_SEED, ALICE_X, "turned");
        assert_eq!(m.pn, 3);
        alice = after;
        turned.push(m);
    }
    (alice, bob, vec![m1, m2], turned)
}

#[test]
fn late_messages_of_the_chain_before_arrive() {
    let (alice, bob, late, turned) = turn_with_late_messages(2);
    let (bob, text, _) = delivered(receive(bob, &turned[1]));
    assert_eq!(text, "turned");
    assert_eq!(bob.n_recv, 2);
    assert_eq!(bob.skipped_keys.len(), 3);
    let old = hex_of(&late[0].dh_pub);
    assert!(bob.skipped_keys.get(&format!("{}-0", old)).is_none());
    assert!(bob.skipped_keys.get(&format!("{}-1", old)).is_some());
    assert!(bob.skipped_keys.get(&format!("{}-2", old)).is_some());
    assert!(bob.skipped_keys.get(&format!("{}-3", old)).is_none());
    let (bob, text, from_skipped) = delivered(receive(bob, &late[1]));
    assert_eq!((text.as_str(), from_skipped), ("two", true));
    let (bob, text, from_skipped) = delivered(receive(bob, &turned[0]));
    assert_eq!((text.as_str(), from_skipped), ("turned", true));
    let (bob, text, from_skipped) = delivered(receive(bob, &late[0]));
    assert_eq!((text.as_str(), from_skipped), ("one", true));
    assert_eq!(bob.skipped_keys.len(), 0);
    assert_eq!(rejected(receive(bob.clone(), &late[0])), Rejection::BodyDecrypt);
    let (_, m) = answer(alice, ALICE_SEED, ALICE_X, "next");
    assert_eq!(delivered(receive(bob, &m)).1, "next");
}

#[test]
fn late_messages_arrive_after_another_step() {
    let (alice, bob, late, turned) = turn_with_late_messages(1);
    let (bob, _, _) = delivered(receive(bob, &turned[0]));
    let (bob, reply) = answer(bob, BOB_SEED, BOB_X, "reply");
    let (alice, _) = text_of(receive_message(alice, &reply, &fp(ALICE_SEED)));
    let (_, m) = answer(alice, ALICE_SEED, ALICE_X, "once more");
    assert_eq!((m.n, m.pn), (0, 1));
    let (bob, text, _) = delivered(receive(bob, &m));
    assert_eq!(text, "once more");
    let (bob, text, from_skipped) = delivered(receive(bob, &late[0]));
    assert_eq!((text.as_str(), from_skipped), ("one", true));
    assert_eq!(delivered(receive(bob, &late[1])).1, "two");
}

#[test]
fn rejected_messages_keep_no_keys() {
    let (_, bob, late, turned) = turn_with_late_messages(1);
    let mut bad = turned[0].clone();
    bad.body_ct[0] ^= 1;
    assert_eq!(rejected(receive(bob.clone(), &bad)), Rejection::BodyDecrypt);
    let (bob, text, from_skipped) = delivered(receive(bob, &late[1]));
    assert_eq!((text.as_str(), from_skipped), ("two", false));
    let (_, text, _) = delivered(receive(bob, &turned[0]));
    assert_eq!(text, "turned");
}

#[test]
fn a_step_keeps_no_keys_over_the_limit() {
    let (mut alice, mut bob) = pair();
    bob.n_recv = MAX_MESSAGE_NUMBER - 1;
    alice.chain_send_b64 = None;
    alice.dh_recv_pub_b64 = Some(bob.dh_send_pub_b64.clone());
    alice.n_send = u32::MAX;
    let old = hex_of(&alice.dh_send_pub_bytes().unwrap());
    let alice = ratchet_send(alice, &[77; 32]).unwrap();
    let (_, m) = send(alice, None, "turned");
    assert_eq!(m.pn, u32::MAX);
    let (bob, _, _) = delivered(receive(bob, &m));
    assert_eq!(bob.skipped_keys.len(), 2);
    assert!(bob.skipped_keys.get(&format!("{}-9999", old)).is_some());
    assert!(bob.skipped_keys.get(&format!("{}-10000", old)).is_some());
}

#[test]
fn a_step_of_the_ratchet() {
    let (_, bob) = pair();
    let next = ratchet_receive(bob.clone(), &public([12; 32]), 2, &[13; 32]).unwrap();
    assert_eq!(next.chain_send_b64, None);
    assert_eq!(next.dh_recv_pub_bytes(), Ok(Some(public([12; 32]))));
    assert_eq!(next.dh_send_pub_bytes(), Ok(public([13; 32])));
    assert_eq!(next.skipped_keys.len(), 2);
    let (ck, mk) = kdf_ck(&bob.chain_recv().unwrap().unwrap()).unwrap();
    let old = hex_of(&public([10; 32]));
    assert_eq!(next.skipped_keys.get(&format!("{}-0", old)), Some(b64_encode(&mk)));
    let (_, mk) = kdf_ck(&ck).unwrap();
    assert_eq!(next.skipped_keys.get(&format!("{}-1", old)), Some(b64_encode(&mk)));
    let mut bare = bob;
    bare.chain_recv_b64 = Some("!".to_string());
    let next = ratchet_receive(bare, &public([12; 32]), 2, &[13; 32]).unwrap();
    assert_eq!(next.skipped_keys.len(), 0);
}

#[test]
fn sessions_agree_after_the_first_message() {
    let (alice, init) = open();
    let (alice, first) = send(alice, Some(init), "hello");
    let bob = delivered(receive(accept(&first), &first)).0;
    assert_eq!(bob.root_key_b64, alice.root_key_b64);
    assert_eq!(bob.header_key_b64, alice.header_key_b64);
    assert_eq!(bob.chain_recv_b64, alice.chain_send_b64);
    assert_eq!(bob.dh_recv_pub_b64, Some(alice.dh_send_pub_b64));
    assert_eq!((bob.n_recv, alice.n_send), (1, 1));
}

#[test]
fn replays_stay_rejected() {
    let (mut alice, mut bob) = pair();
    let mut sent = Vec::new();
    for i in 0..6 {
        let (after, m) = send(alice, None, &format!("{}", i));
        alice = after;
        sent.push(m);
    }
    let mut read: Vec<usize> = Vec::new();
    for i in [2usize, 0, 4, 1, 5, 3] {
        bob = delivered(receive(bob, &sent[i])).0;
        read.push(i);
        for old in &read {
            assert_eq!(rejected(receive(bob.clone(), &sent[*old])), Rejection::OldNumber);
        }
    }
    let bob_fp = fp(BOB_SEED);
    let (after, reply) = answer(bob, BOB_SEED, BOB_X, "reply");
    assert_eq!(reply.sender_fp, mesh_crypto::encoding::fp_to_bytes(&bob_fp).unwrap());
    for m in &sent {
        assert_eq!(rejected(receive(after.clone(), m)), Rejection::OldNumber);
    }
}

#[test]
fn own_messages_do_not_turn_the_ratchet() {
    let (alice, mut bob) = pair();
    let (_, m) = send(alice, None, "note to self");
    bob.dh_recv_pub_b64 = None;
    assert_eq!(need_ratchet(&bob, &m, &fp(BOB_SEED)), Ok(true));
    assert_eq!(need_ratchet(&bob, &m, &fp(ALICE_SEED)), Ok(false));
    bob.dh_send_pub_b64 = b64_encode(&m.dh_pub);
    assert_eq!(need_ratchet(&bob, &m, &fp(BOB_SEED)), Ok(false));
    bob.dh_recv_pub_b64 = Some("?".to_string());
    assert_eq!(need_ratchet(&bob, &m, &fp(BOB_SEED)), Err(MeshError::BadBase64));
}

#[test]
fn a_missing_receiving_chain_comes_from_the_root_key() {
    let (alice, mut bob) = pair();
    bob.chain_recv_b64 = None;
    let (_, m) = send(alice, None, "first");
    assert_eq!(delivered(receive(bob, &m)).1, "first");
}

#[test]
fn malformed_sessions_are_errors() {
    let (alice, bob) = pair();
    let (_, m) = send(alice, None, "x");
    let mut s = bob.clone();
    s.chain_recv_b64 = Some("?".to_string());
    assert_eq!(receive(s, &m).err(), Some(MeshError::BadBase64));
    let mut s = bob.clone();
    s.header_key_b64 = b64_encode(&[1]);
    assert_eq!(receive(s, &m).err(), Some(MeshError::HeaderKeyLength));
    let mut s = bob.clone();
    s.dh_recv_pub_b64 = None;
    s.dh_send_priv_b64 = b64_encode(&[1]);
    assert_eq!(receive(s, &m).err(), Some(MeshError::DhPrivateLength));
    let mut s = bob;
    s.skipped_keys = SkippedKeys::from_entries(&vec![(
        format!("{}-0", hex_of(&m.dh_pub)),
        b64_encode(&[1, 2]),
    )]);
    assert_eq!(receive(s, &m).err(), Some(MeshError::MessageKeyLength));
}

fn seal_error(change: fn(&mut Session), my_fp: &str) -> Option<MeshError> {
    let (mut alice, _) = pair();
    change(&mut alice);
    seal_message(alice, my_fp, &public(ALICE_X), None, "x", &[1; 24], &[2; 24], 0).err()
}

#[test]
fn sending_refusals() {
    let me = fp(ALICE_SEED);
    assert_eq!(seal_error(|s| s.n_send = u32::MAX, &me), Some(MeshError::CounterExhausted));
    assert_eq!(seal_error(|s| s.chain_send_b64 = None, &me), Some(MeshError::NoSendingChain));
    assert_eq!(
        seal_error(|s| s.chain_send_b64 = Some("?".to_string()), &me),
        Some(MeshError::BadBase64)
    );
    assert_eq!(
        seal_error(|s| s.dh_send_pub_b64 = b64_encode(&[1]), &me),
        Some(MeshError::DhPublicLength)
    );
    assert_eq!(
        seal_error(|s| s.header_key_b64 = b64_encode(&[1]), &me),
        Some(MeshError::HeaderKeyLength)
    );
    assert_eq!(seal_error(|_| (), "short"), Some(MeshError::FingerprintLength));
    assert_eq!(seal_error(|_| (), &me), None);
}

#[test]
fn what_a_message_needs() {
    let (alice, init) = open();
    let (alice, first) = send(alice, Some(init), "first");
    let (mut alice, second) = send(alice, None, "second");
    let (_, bob) = pair();
    let end = bob.created_at + SESSION_LIFETIME;
    assert!(matches!(plan_delivery(Some(bob.clone()), &second, end), Delivery::Use(_)));
    assert!(matches!(plan_delivery(Some(bob.clone()), &first, end), Delivery::Use(_)));
    assert!(matches!(plan_delivery(Some(bob.clone()), &second, end + 1), Delivery::NoSession));
    assert!(matches!(plan_delivery(Some(bob.clone()), &first, end + 1), Delivery::Accept(_)));
    assert!(matches!(plan_delivery(None, &second, 0), Delivery::NoSession));
    match plan_delivery(None, &first, 0) {
        Delivery::Accept(keys) => assert_eq!(keys.ek_pub, init.ek_pub),
        other => panic!("{:?}", other),
    }
    alice.n_send = MAX_MESSAGE_NUMBER + 1;
    let (_, far) = send(alice, None, "far");
    assert!(matches!(plan_delivery(Some(bob), &far, end), Delivery::TooFar));
}

#[test]
fn accepting_needs_the_prekeys() {
    let (alice, init) = open();
    let (_, m) = send(alice, Some(init), "first");
    let spk = b64_encode(&BOB_SPK);
    let try_accept = |spk: Option<&str>, opk: Option<&str>| {
        accept_session(&BOB_X, &fp(BOB_SEED), &m, &init, spk, opk).err()
    };
    assert_eq!(try_accept(None, None), Some(MeshError::PrekeyMissing));
    assert_eq!(try_accept(Some(&spk), None), Some(MeshError::PrekeyMissing));
    assert_eq!(try_accept(Some("AA"), Some(&spk)), Some(MeshError::PrekeyLength));
    assert!(MeshError::PrekeyLength.ends_poll());
    assert!(MeshError::NoClock.ends_poll());
    assert!(MeshError::NoRandomness.ends_poll());
    assert!(!MeshError::PrekeyMissing.ends_poll());
    assert!(!MeshError::BadBase64.ends_poll());
}

#[test]
fn opening_checks_the_bundle() {
    let mut b = bundle();
    b.spk_sig = None;
    let r = open_conversation(&ALICE_X, &fp(ALICE_SEED), &fp(BOB_SEED), &b);
    assert_eq!(r.err(), Some(MeshError::MissingPrekeySignature));
    let r = open_conversation(&ALICE_X, "x", &fp(BOB_SEED), &bundle());
    assert_eq!(r.err(), Some(MeshError::FingerprintLength));
    let (session, init) = open();
    assert_eq!(session.dh_recv_pub_bytes(), Ok(Some(public(BOB_SPK))));
    assert_eq!((init.spk_id, init.opk_id), (1, 2));
}

#[test]
fn text_of_a_message() {
    let some = |t: &str| Some(t.to_string());
    assert_eq!(message_text(some("given"), some("piped")), "given");
    assert_eq!(message_text(None, some("piped")), "piped");
    assert_eq!(message_text(None, None), "hello v3");
}
