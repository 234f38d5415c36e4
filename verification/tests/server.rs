use ed25519_dalek::{Signature, Signer, SigningKey};
use mesh_crypto::encoding::{b64_decode, b64_encode, fp_from_bytes};
use mesh_crypto::error::MeshError;
use mesh_crypto::identity::{
    fingerprint_of, generate_identity, load_identity, make_identity, peer_fingerprint,
};
use mesh_crypto::mailbox::{
    allow_body, challenge_nonce, claimed_token, inbox_ids, make_claim, rotated_token, token_line,
    token_of,
};
use mesh_crypto::paths::{
    bundle_url, clock_seconds, join, keys_dir, mailbox_url, mesh_dir, message_url, now_secs,
    opk_path, prekey_path, prekeys_dir, session_path, sessions_dir, spent_prekey, spk_path,
    token_path, upload_finish_url, upload_piece_url,
};
use mesh_crypto::publish::{build_publication, draw_publication, number_from, SPK_ID_LIMIT};
use mesh_crypto::text::{ascii_lower, decimal_int_text, decimal_text, trim};
use mesh_crypto::upload::{
    count_pieces, file_id, finish_body, new_file_id, progress_due, sent_whole, upload_piece,
    PIECE_SIZE, WHOLE_LIMIT,
};
use mesh_crypto::x3dh::load_prekey_priv;

fn public(private: [u8; 32]) -> [u8; 32] {
    x25519_dalek::PublicKey::from(&x25519_dalek::StaticSecret::from(private)).to_bytes()
}

fn json(text: &str) -> serde_json::Value {
    serde_json::from_str(text).unwrap()
}

// ---------------------------------------------------------------- identities

#[test]
fn identity_round_trip() {
    let files = make_identity(&[1; 32], &[2; 32]);
    let key = SigningKey::from_bytes(&[1; 32]);
    assert_eq!(files.secret, [[1u8; 32], [2; 32]].concat());
    assert_eq!(files.fp, fp_from_bytes(&key.verifying_key().to_bytes()));
    assert_eq!(files.fp_line, format!("{}\n", files.fp));
    assert_eq!(files.x_id_pub, b64_encode(&public([2; 32])));
    assert_eq!(b64_decode(&files.x_id_sig), Ok(key.sign(&public([2; 32])).to_bytes().to_vec()));
    let id = load_identity(&files.secret, &files.fp_line).unwrap();
    assert_eq!((id.ed_seed, id.x_priv, id.x_pub), ([1; 32], [2; 32], public([2; 32])));
    assert_eq!(id.fp, files.fp);
}

#[test]
fn identities_are_fresh() {
    let one = generate_identity().unwrap();
    let other = generate_identity().unwrap();
    assert_eq!((one.secret.len(), one.fp.len()), (64, 64));
    assert_ne!(one.secret, other.secret);
    assert_ne!(one.secret[..32], one.secret[32..]);
    assert_eq!(load_identity(&one.secret, &one.fp_line).unwrap().fp, one.fp);
}

#[test]
fn identity_files_that_are_loaded() {
    assert_eq!(load_identity(&[0; 63], "ab").err(), Some(MeshError::IdentityLength));
    let long: Vec<u8> = (0..100).collect();
    let id = load_identity(&long, " AbC\n").unwrap();
    assert_eq!(id.ed_seed.to_vec(), (0u8..32).collect::<Vec<u8>>());
    assert_eq!(id.x_priv.to_vec(), (32u8..64).collect::<Vec<u8>>());
    assert_eq!(id.fp, "abc");
    assert_eq!(fingerprint_of("\tFF00 \n"), "ff00");
}

#[test]
fn peer_fingerprints() {
    let fp = "AB".repeat(32);
    assert_eq!(peer_fingerprint(&fp), Ok("ab".repeat(32)));
    assert_eq!(peer_fingerprint(&fp[1..]), Err(MeshError::FingerprintLength));
    assert_eq!(peer_fingerprint(&"\u{e9}".repeat(32)), Ok("\u{e9}".repeat(32)));
}

// ---------------------------------------------------------------- requests and replies

#[test]
fn claims_are_signed() {
    let fp = "ab".repeat(32);
    let claim = make_claim(&[1; 32], &fp, "n\"1", 1700000000);
    assert_eq!(claim.ts, "1700000000");
    let text = format!("CLAIM /mesh/v3/{}/claim\n1700000000\nn\"1", fp);
    let sig: [u8; 64] = b64_decode(&claim.sig).unwrap().try_into().unwrap();
    assert!(claim.sig.ends_with("=="));
    let key = SigningKey::from_bytes(&[1; 32]).verifying_key();
    assert!(key.verify_strict(text.as_bytes(), &Signature::from_bytes(&sig)).is_ok());
    let body = json(&claim.body);
    assert_eq!(body["ts"].as_i64(), Some(1700000000));
    assert_eq!(body["nonce"].as_str(), Some("n\"1"));
    assert_eq!(body["sig"].as_str(), Some(claim.sig.as_str()));
    assert_eq!(body.as_object().unwrap().len(), 3);
}

#[test]
fn replies_with_one_text() {
    assert_eq!(challenge_nonce(br#"{"nonce":"x"}"#), Ok("x".to_string()));
    assert_eq!(challenge_nonce(br#"{"nonce":1}"#), Err(MeshError::MissingNonce));
    assert_eq!(challenge_nonce(b"x"), Err(MeshError::BadReply));
    assert_eq!(claimed_token(br#"{"token":"t"}"#), Ok("t".to_string()));
    assert_eq!(claimed_token(b"[]"), Err(MeshError::MissingToken));
    assert_eq!(claimed_token(b""), Err(MeshError::BadReply));
    assert_eq!(rotated_token(br#"{"token":"t"}"#), Some("t".to_string()));
    assert_eq!(rotated_token(br#"{"error":"t"}"#), None);
    assert_eq!(rotated_token(b"gone"), None);
}

#[test]
fn token_files() {
    assert_eq!(token_line("tok"), "tok\n");
    assert_eq!(token_of(&token_line("tok")), "tok");
    assert_eq!(token_of(" tok \r\n"), "tok");
    assert_eq!(token_of(&token_line(" ")), "");
}

#[test]
fn allow_requests() {
    let body = json(&allow_body("AbC", "allow"));
    assert_eq!(body["fp"].as_str(), Some("abc"));
    assert_eq!(body["action"].as_str(), Some("allow"));
    assert_eq!(body.as_object().unwrap().len(), 2);
}

#[test]
fn inbox_listing() {
    let reply = br#"{"messages":[{"id":"a"},{"id":""},{"x":1},{"id":7},{"id":"b"}]}"#;
    assert_eq!(inbox_ids(reply), Ok((5, vec!["a".to_string(), "b".to_string()])));
    assert_eq!(inbox_ids(b"{}"), Ok((0, Vec::new())));
    assert_eq!(inbox_ids(br#"{"messages":"none"}"#), Ok((0, Vec::new())));
    assert_eq!(inbox_ids(b"<html>"), Err(MeshError::BadReply));
}

// ---------------------------------------------------------------- prekeys

#[test]
fn publication() {
    let opks = vec![[7u8; 32], [8; 32]];
    let p = build_publication(&[1; 32], &[2; 32], " sig\n", &[3; 32], 42, &opks, -5);
    let spk = b64_encode(&[3; 32]);
    let entry = |path: &str, text: &str| (path.to_string(), text.to_string());
    assert_eq!(
        p.opk_files,
        vec![
            entry(".mesh-v3/prekeys/opk_0.priv", &b64_encode(&[7; 32])),
            entry(".mesh-v3/prekeys/opk_1.priv", &b64_encode(&[8; 32])),
        ]
    );
    assert_eq!(
        p.spk_files,
        vec![
            entry(".mesh-v3/prekeys/spk_42.priv", &spk),
            entry(".mesh-v3/prekeys/spk_priv", &spk),
            entry(".mesh-v3/prekeys/spk_id", "42"),
            entry(".mesh-v3/prekeys/spk_created_at", "-5"),
        ]
    );
    let body = json(&p.body);
    assert_eq!(body["x_id_pub"].as_str(), Some(b64_encode(&[2; 32]).as_str()));
    assert_eq!(body["x_id_sig"].as_str(), Some("sig"));
    assert_eq!(body["spk_id"].as_u64(), Some(42));
    assert_eq!(body["spk_pub"].as_str(), Some(b64_encode(&public([3; 32])).as_str()));
    let sig = SigningKey::from_bytes(&[1; 32]).sign(&public([3; 32])).to_bytes().to_vec();
    assert_eq!(b64_decode(body["spk_sig"].as_str().unwrap()), Ok(sig));
    assert!(body["spk_sig"].as_str().unwrap().ends_with("=="));
    let list = body["opks"].as_array().unwrap();
    assert_eq!(list.len(), 2);
    assert_eq!(list[1]["id"].as_u64(), Some(1));
    assert_eq!(list[1]["pub"].as_str(), Some(b64_encode(&public([8; 32])).as_str()));
    assert_eq!(load_prekey_priv(Some(&p.opk_files[1].1)), Ok([8; 32]));
}

#[test]
fn drawn_publications() {
    let p = draw_publication(&[1; 32], &[2; 32], "sig", 9).unwrap();
    assert_eq!(p.opk_files.len(), 100);
    assert_ne!(p.opk_files[0].1, p.opk_files[99].1);
    let body = json(&p.body);
    let spk_id = body["spk_id"].as_u64().unwrap();
    assert!(spk_id < SPK_ID_LIMIT as u64);
    assert_eq!(p.spk_files[2].1, spk_id.to_string());
    let private = load_prekey_priv(Some(&p.opk_files[99].1)).unwrap();
    let list = body["opks"].as_array().unwrap();
    assert_eq!(list[99]["pub"].as_str(), Some(b64_encode(&public(private)).as_str()));
}

#[test]
fn prekey_numbers() {
    assert_eq!(number_from(&[1, 0, 0, 0]), 1);
    assert_eq!(number_from(&[0, 1, 0, 0]), 256);
    assert_eq!(number_from(&[255, 255, 255, 255]), 4294967295u32 % 1_000_000);
}

// ---------------------------------------------------------------- paths and addresses

#[test]
fn directories_and_files() {
    assert_eq!(mesh_dir(), ".mesh-v3");
    assert_eq!(keys_dir(), ".mesh-v3/keys");
    assert_eq!(sessions_dir(), ".mesh-v3/sessions");
    assert_eq!(prekeys_dir(), ".mesh-v3/prekeys");
    assert_eq!(session_path("ABcd"), ".mesh-v3/sessions/abcd.json");
    assert_eq!(token_path("abcd"), ".mesh-v3/keys/abcd.key");
    assert_eq!(opk_path(4294967295), ".mesh-v3/prekeys/opk_4294967295.priv");
    assert_eq!(spk_path(0), ".mesh-v3/prekeys/spk_0.priv");
    assert_eq!(prekey_path("spk", 7, true), ".mesh-v3/prekeys/spk_7.priv");
    assert_eq!(prekey_path("spk", 7, false), ".mesh-v3/prekeys/spk_priv");
    assert_eq!(prekey_path("opk", 7, false), ".mesh-v3/prekeys/opk_7.priv");
    assert_eq!(spent_prekey(7), Some(".mesh-v3/prekeys/opk_7.priv".to_string()));
    assert_eq!(spent_prekey(0xffff_ffff), None);
    assert_eq!(join("a/", "b"), "a/b");
    assert_eq!(join("", "b"), "b");
    assert_eq!(join("a", "/b"), "/b");
}

#[test]
fn addresses() {
    assert_eq!(mailbox_url("https://h//", "fp", "/claim"), "https://h/mesh/v3/fp/claim");
    assert_eq!(mailbox_url("h", "fp", ""), "h/mesh/v3/fp");
    assert_eq!(message_url("h/", "fp", "id"), "h/mesh/v3/fp/id");
    assert_eq!(bundle_url("h", "FP"), "h/mesh/v3/fp/x3dh/bundle");
    assert_eq!(upload_piece_url("h", "fp", "id", 12), "h/mesh/v3/fp/file/id/chunk/12");
    assert_eq!(upload_finish_url("h", "fp", "id"), "h/mesh/v3/fp/file/id/finalize");
}

#[test]
fn clock() {
    assert_eq!(clock_seconds(Some(5)), Ok(5));
    assert_eq!(clock_seconds(None), Err(MeshError::NoClock));
    assert!(now_secs().unwrap() > 1_600_000_000);
}

#[test]
fn small_texts() {
    assert_eq!(trim("\u{a0} a b \u{2028}\n"), "a b");
    assert_eq!(trim(" \t"), "");
    assert_eq!(ascii_lower("A\u{c9}Zz@["), "a\u{c9}zz@[");
    assert_eq!(decimal_text(0), "0");
    assert_eq!(decimal_text(u64::MAX), u64::MAX.to_string());
    assert_eq!(decimal_int_text(i64::MIN), i64::MIN.to_string());
    assert_eq!(decimal_int_text(-10), "-10");
    assert_eq!(decimal_int_text(1203), "1203");
}

// ---------------------------------------------------------------- uploads

#[test]
fn uploads_in_one_request() {
    assert_eq!(WHOLE_LIMIT, 450 * 1024);
    assert!(sent_whole(WHOLE_LIMIT));
    assert!(!sent_whole(WHOLE_LIMIT + 1));
}

#[test]
fn uploads_in_pieces() {
    assert_eq!(PIECE_SIZE, 8 * 1024 * 1024);
    assert_eq!(count_pieces(0), 0);
    assert_eq!(count_pieces(1), 1);
    assert_eq!(count_pieces(PIECE_SIZE), 1);
    assert_eq!(count_pieces(PIECE_SIZE + 1), 2);
    assert_eq!(count_pieces(usize::MAX), usize::MAX / PIECE_SIZE + 1);
    let wire: Vec<u8> = (0..2 * PIECE_SIZE + 5).map(|i| (i % 253) as u8).collect();
    let pieces: Vec<Vec<u8>> = (0..count_pieces(wire.len())).map(|i| upload_piece(&wire, i)).collect();
    assert_eq!(pieces.len(), 3);
    assert_eq!(pieces[2].len(), 5);
    assert_eq!(pieces.concat(), wire);
}

#[test]
fn upload_details() {
    assert_eq!(finish_body(12), "{\"total\":12}");
    assert_eq!(file_id(&[0xa5; 16]), "a5".repeat(16));
    let id = new_file_id().unwrap();
    assert_eq!(id.len(), 32);
    assert_ne!(id, new_file_id().unwrap());
    assert!(progress_due(9, 11));
    assert!(!progress_due(9, 10));
    assert!(!progress_due(10, 11));
}
