use mesh_crypto::encoding::b64_encode;
use mesh_crypto::error::MeshError;
use mesh_crypto::kdf::hkdf_derive;
use mesh_crypto::session::{
    init_session_from_x3dh, live_session, start_accepted, start_session, Session, SESSION_LIFETIME,
};
use mesh_crypto::skipped::{SkippedKeys, MAX_SKIPPED_KEYS};

fn started() -> Session {
    start_session(&[1; 32], &[2; 32], &[3; 32], &[4; 32], 1000)
}

#[test]
fn new_session() {
    let s = started();
    let chain = hkdf_derive(&[1; 32], b"mesh-v3-chain", 32).unwrap();
    let header = hkdf_derive(&[1; 32], b"mesh-v3-header v1", 32).unwrap();
    assert_eq!(s.root_key(), Ok(vec![1; 32]));
    assert_eq!(s.chain_send(), Ok(Some(chain.clone())));
    assert_eq!(s.chain_recv(), Ok(Some(chain)));
    assert_eq!(s.dh_send_priv_bytes(), Ok([3; 32]));
    assert_eq!(s.dh_send_pub_bytes(), Ok([4; 32]));
    assert_eq!(s.dh_recv_pub_bytes(), Ok(Some([2; 32])));
    assert_eq!(s.header_key().map(|k| k.to_vec()), Ok(header));
    assert_eq!((s.n_send, s.n_recv, s.pn, s.created_at), (0, 0, 0, 1000));
    assert_eq!(s.skipped_keys.len(), 0);
    assert_eq!(s.root_key_b64, b64_encode(&[1; 32]));
}

#[test]
fn accepted_session() {
    let s = start_accepted(&[1; 32], &[2; 32], &[3; 32], &[4; 32], 1000);
    let new = started();
    assert_eq!(s.chain_send_b64, None);
    assert!(new.chain_send_b64.is_some());
    assert_eq!(s.root_key_b64, new.root_key_b64);
    assert_eq!(s.chain_recv_b64, new.chain_recv_b64);
    assert_eq!(s.header_key_b64, new.header_key_b64);
    assert_eq!(s.dh_send_priv_bytes(), Ok([3; 32]));
    assert_eq!(s.dh_send_pub_bytes(), Ok([4; 32]));
    assert_eq!(s.dh_recv_pub_bytes(), Ok(Some([2; 32])));
    assert_eq!((s.n_send, s.n_recv, s.pn, s.created_at), (0, 0, 0, 1000));
    assert_eq!(s.skipped_keys.len(), 0);
}

#[test]
fn new_session_without_a_peer_key() {
    let s = start_session(&[1; 32], &[], &[3; 32], &[4; 32], 0);
    assert_eq!(s.dh_recv_pub_b64, None);
    assert_eq!(s.dh_recv_pub_bytes(), Ok(None));
}

#[test]
fn new_session_draws_a_ratchet_pair() {
    let s = init_session_from_x3dh(&[1; 32], &[2; 32]).unwrap();
    let private = s.dh_send_priv_bytes().unwrap();
    let secret = x25519_dalek::StaticSecret::from(private);
    let public = x25519_dalek::PublicKey::from(&secret).to_bytes();
    assert_eq!(s.dh_send_pub_bytes(), Ok(public));
    assert!(s.created_at > 1_600_000_000);
    let t = init_session_from_x3dh(&[1; 32], &[2; 32]).unwrap();
    assert_ne!(s.dh_send_priv_b64, t.dh_send_priv_b64);
    assert_eq!(s.chain_send_b64, t.chain_recv_b64);
}

#[test]
fn malformed_keys() {
    let short = b64_encode(&[5; 31]);
    let mut s = started();
    s.dh_send_priv_b64 = short.clone();
    s.dh_send_pub_b64 = short.clone();
    s.dh_recv_pub_b64 = Some(short.clone());
    s.header_key_b64 = short;
    assert_eq!(s.dh_send_priv_bytes(), Err(MeshError::DhPrivateLength));
    assert_eq!(s.dh_send_pub_bytes(), Err(MeshError::DhPublicLength));
    assert_eq!(s.dh_recv_pub_bytes(), Err(MeshError::DhReceivedLength));
    assert_eq!(s.header_key(), Err(MeshError::HeaderKeyLength));
    let bad = "?".to_string();
    s.root_key_b64 = bad.clone();
    s.chain_send_b64 = Some(bad.clone());
    s.chain_recv_b64 = Some(bad.clone());
    s.dh_recv_pub_b64 = Some(bad.clone());
    s.header_key_b64 = bad;
    assert_eq!(s.root_key(), Err(MeshError::BadBase64));
    assert_eq!(s.chain_send(), Err(MeshError::BadBase64));
    assert_eq!(s.chain_recv(), Err(MeshError::BadBase64));
    assert_eq!(s.dh_recv_pub_bytes(), Err(MeshError::BadBase64));
    assert_eq!(s.header_key(), Err(MeshError::BadBase64));
    s.chain_send_b64 = None;
    assert_eq!(s.chain_send(), Ok(None));
}

#[test]
fn sessions_end_after_seven_days() {
    assert_eq!(SESSION_LIFETIME, 7 * 24 * 60 * 60);
    assert!(live_session(Some(started()), 1000 + SESSION_LIFETIME).is_some());
    assert!(live_session(Some(started()), 1001 + SESSION_LIFETIME).is_none());
    assert!(live_session(Some(started()), i64::MIN).is_some());
    assert!(live_session(Some(started()), i64::MAX).is_none());
    assert!(live_session(None, 0).is_none());
}

fn keys(numbers: std::ops::Range<usize>) -> Vec<(String, String)> {
    numbers.map(|i| (format!("k{}", i), format!("v{}", i))).collect()
}

#[test]
fn skipped_keys_are_found_and_removed() {
    let mut s = SkippedKeys::from_entries(&keys(0..3));
    assert_eq!(s.len(), 3);
    assert_eq!(s.get("k1"), Some("v1".to_string()));
    assert_eq!(s.get("k"), None);
    s.remove("k1");
    assert_eq!(s.get("k1"), None);
    assert_eq!(s.into_entries(), vec![keys(0..1)[0].clone(), keys(2..3)[0].clone()]);
}

#[test]
fn skipped_keys_survive_being_stored() {
    let mut s = SkippedKeys::from_entries(&keys(0..50));
    s.insert("k7".to_string(), "again".to_string());
    s.remove("k9");
    let entries = s.into_entries();
    let back = SkippedKeys::from_entries(&entries);
    assert_eq!(back.into_entries(), entries);
}

#[test]
fn oldest_skipped_keys_make_room() {
    let mut s = SkippedKeys::from_entries(&keys(0..MAX_SKIPPED_KEYS + 5));
    assert_eq!(s.len(), MAX_SKIPPED_KEYS);
    assert_eq!(s.get("k4"), None);
    assert_eq!(s.get("k5"), Some("v5".to_string()));
    s.insert("k5".to_string(), "again".to_string());
    s.insert("new".to_string(), "x".to_string());
    assert_eq!(s.len(), MAX_SKIPPED_KEYS);
    assert_eq!(s.get("k5"), Some("again".to_string()));
    assert_eq!(s.get("k6"), None);
    assert_eq!(s.clone().into_entries().last(), Some(&("new".to_string(), "x".to_string())));
}
