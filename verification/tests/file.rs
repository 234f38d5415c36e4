use blake2::Digest;
use mesh_crypto::encoding::{b64_encode, hex_of};
use mesh_crypto::envelope::{encode_legacy, parse_message, Inbound, InitKeys, LegacyMessage};
use mesh_crypto::error::MeshError;
use mesh_crypto::file::{
    open_legacy, seal_file, send_file, Opened, CHUNK_SIZE, MAX_FILE, MAX_V3_BODY, NAME_LIMIT,
};
use mesh_crypto::kdf::{cenc, hkdf_derive_salt, xdec, xenc};

const SK: [u8; 32] = [9; 32];

fn init() -> InitKeys {
    InitKeys { ek_pub: [1; 32], spk_id: 4, opk_id: 5 }
}

fn me() -> String {
    "ab".repeat(32)
}

fn contents(len: usize) -> Vec<u8> {
    (0..len).map(|i| (i * 31 + i / 251) as u8).collect()
}

fn seal(file: &[u8]) -> LegacyMessage {
    seal_file(&SK, &init(), &me(), &[2; 32], "a.bin", file, &[3; 32], &[6; 12], &[7; 24]).unwrap()
}

fn header_key() -> [u8; 32] {
    hkdf_derive_salt(&SK, &SK, b"mesh-v3-msg v1", 64).unwrap()[..32].try_into().unwrap()
}

fn text_key() -> [u8; 32] {
    hkdf_derive_salt(&SK, &SK, b"mesh-v3-msg v1", 64).unwrap()[32..].try_into().unwrap()
}

fn over_the_wire(m: &LegacyMessage) -> LegacyMessage {
    match parse_message(&encode_legacy(m)) {
        Inbound::Legacy(back) => back,
        other => panic!("{:?}", other),
    }
}

fn opened_file(m: &LegacyMessage) -> (String, Vec<u8>) {
    match open_legacy(&SK, m) {
        Ok(Opened::File { name, bytes }) => (name, bytes),
        other => panic!("{:?}", other),
    }
}

/// A message of a kind with the given header, encrypted under its nonce.
fn message(kind: u8, header: &str, rest: Vec<u8>) -> LegacyMessage {
    LegacyMessage {
        kind,
        init: init(),
        sender_fp: [0xab; 32],
        sender_x: [2; 32],
        header_nonce: [7; 24],
        header_ct: xenc(&header_key(), &[7; 24], header.as_bytes(), b"").unwrap(),
        rest,
    }
}

#[test]
fn files_arrive() {
    for len in [7, 8, 1000, CHUNK_SIZE - 1, CHUNK_SIZE, CHUNK_SIZE + 1, 3 * CHUNK_SIZE + 17] {
        let file = contents(len);
        let m = seal(&file);
        assert_eq!(opened_file(&over_the_wire(&m)), ("a.bin".to_string(), file));
    }
}

#[test]
fn drawn_keys_serve_as_well() {
    let file = contents(100);
    let m = send_file(&SK, &init(), &me(), &[2; 32], "b", &file).unwrap();
    assert_eq!(opened_file(&over_the_wire(&m)), ("b".to_string(), file.clone()));
    let again = send_file(&SK, &init(), &me(), &[2; 32], "b", &file).unwrap();
    assert_ne!(m.header_nonce, again.header_nonce);
    assert_ne!(m.rest, again.rest);
}

#[test]
fn small_files_arrive() {
    for len in 0..7 {
        let file = contents(len);
        let m = seal(&file);
        assert_eq!(opened_file(&over_the_wire(&m)), ("a.bin".to_string(), file));
    }
}

#[test]
fn files_with_long_names_arrive() {
    for len in [2000, NAME_LIMIT] {
        let name = "n".repeat(len);
        let m = send_file(&SK, &init(), &me(), &[2; 32], &name, b"x").unwrap();
        assert!(encode_legacy(&m).len() < MAX_V3_BODY);
        assert_eq!(opened_file(&over_the_wire(&m)), (name, b"x".to_vec()));
    }
    let escaped = "\u{1}".repeat(NAME_LIMIT);
    let m = send_file(&SK, &init(), &me(), &[2; 32], &escaped, b"x").unwrap();
    assert_eq!(opened_file(&over_the_wire(&m)).0, escaped);
}

#[test]
fn headers_that_are_too_long_are_refused() {
    let name = "n".repeat(70000);
    let r = send_file(&SK, &init(), &me(), &[2; 32], &name, b"x");
    assert_eq!(r.err(), Some(MeshError::HeaderTooLong));
}

/// A file of one chunk as it was written before headers had nonces of their own.
fn bare_wire(name: &str, file: &[u8]) -> Vec<u8> {
    let m = seal_file(&SK, &init(), &me(), &[2; 32], name, file, &[3; 32], &[6; 12], &[7; 24])
        .unwrap();
    let header = xdec(&header_key(), &[7; 24], &m.header_ct, b"").unwrap();
    let header_ct = xenc(&header_key(), &[0; 24], &header, b"").unwrap();
    let mut ad = blake2::Blake2b512::digest(&header_ct)[..32].to_vec();
    ad.extend_from_slice(&[0, 0, 0, 0, 0, 0, 0, 0, 1]);
    let ct = cenc(&[3; 32], &[6, 6, 6, 6, 0, 0, 0, 0, 0, 0, 0, 0], file, &ad).unwrap();
    let mut wire = encode_legacy(&m)[..106].to_vec();
    wire.extend_from_slice(&(header_ct.len() as u16).to_be_bytes());
    wire.extend_from_slice(&header_ct);
    wire.extend_from_slice(&(ct.len() as u16).to_be_bytes());
    wire.extend_from_slice(&ct);
    wire
}

#[test]
fn files_without_a_header_nonce_are_opened() {
    // Whether part of the header is taken for a nonce depends on its bytes.
    let (mut taken, mut refused) = (0, 0);
    for len in [900, 60000] {
        for i in 0..20 {
            let (name, file) = (format!("file {}", i), contents(len));
            match parse_message(&bare_wire(&name, &file)) {
                Inbound::Legacy(m) => {
                    if m.header_nonce == [0; 24] {
                        refused += 1;
                    } else {
                        taken += 1;
                    }
                    assert_eq!(opened_file(&m), (name, file));
                }
                other => panic!("{:?}", other),
            }
        }
    }
    assert!(taken > 0 && refused > 0);
}

#[test]
fn header_of_a_file() {
    let file = contents(CHUNK_SIZE + 1);
    let m = seal(&file);
    assert_eq!((m.kind, m.sender_fp, m.sender_x), (2, [0xab; 32], [2; 32]));
    let header = xdec(&header_key(), &[7; 24], &m.header_ct, b"").unwrap();
    let v: serde_json::Value = serde_json::from_slice(&header).unwrap();
    let digest = blake2::Blake2b::<blake2::digest::consts::U32>::digest(&file);
    assert_eq!(v["type"].as_str(), Some("file"));
    assert_eq!(v["name"].as_str(), Some("a.bin"));
    assert_eq!(v["size"].as_u64(), Some(65520));
    assert_eq!(v["chunks"].as_u64(), Some(2));
    assert_eq!(v["chunk_size"].as_u64(), Some(65519));
    assert_eq!(v["hash"].as_str(), Some(hex_of(&digest).as_str()));
    assert_eq!(v["fk"].as_str(), Some(b64_encode(&[3; 32]).as_str()));
    assert_eq!(v["base_nonce"].as_str(), Some(b64_encode(&[6; 12]).as_str()));
    assert_eq!(v["spk_id"].as_u64(), Some(4));
    assert_eq!(v["opk_id"].as_u64(), Some(5));
    assert_eq!(v.as_object().unwrap().len(), 10);
}

#[test]
fn chunks_of_a_file() {
    let file = contents(CHUNK_SIZE + 1);
    let m = seal(&file);
    let hash = blake2::Blake2b512::digest(&m.header_ct);
    let mut expected = Vec::new();
    for (i, piece) in [&file[..CHUNK_SIZE], &file[CHUNK_SIZE..]].into_iter().enumerate() {
        let nonce = [6, 6, 6, 6, i as u8, 0, 0, 0, 0, 0, 0, 0];
        let mut ad = hash[..32].to_vec();
        ad.extend_from_slice(&(i as u64).to_le_bytes());
        ad.push(i as u8);
        let ct = cenc(&[3; 32], &nonce, piece, &ad).unwrap();
        expected.extend_from_slice(&(ct.len() as u16).to_be_bytes());
        expected.extend_from_slice(&ct);
    }
    assert_eq!(m.rest, expected);
    assert_eq!(m.rest.len(), file.len() + 2 * 18);
}

#[test]
fn truncated_files_are_refused() {
    let file = contents(2 * CHUNK_SIZE);
    let m = seal(&file);
    let whole = m.rest.len();
    for left in [0, 1, 2, 17, whole / 2 - 1, whole / 2, whole / 2 + 1, whole - 1] {
        let mut cut = m.clone();
        cut.rest.truncate(left);
        match open_legacy(&SK, &cut) {
            Ok(Opened::Incomplete { chunks, expected_chunks, expected_size, .. }) => {
                assert!(chunks < 2);
                assert_eq!((expected_chunks, expected_size), (2, file.len() as u64));
            }
            other => panic!("{} {:?}", left, other),
        }
    }
}

#[test]
fn tampered_files_are_refused() {
    let m = seal(&contents(500));
    let mut bad = m.clone();
    bad.rest[10] ^= 1;
    assert!(matches!(open_legacy(&SK, &bad), Ok(Opened::Incomplete { chunks: 0, .. })));
    let mut bad = m.clone();
    bad.header_ct[0] ^= 1;
    assert!(matches!(open_legacy(&SK, &bad), Ok(Opened::HeaderFailed)));
    assert!(matches!(open_legacy(&[0; 32], &m), Ok(Opened::HeaderFailed)));
}

#[test]
fn chunks_cannot_change_places() {
    let m = seal(&contents(2 * CHUNK_SIZE));
    let half = m.rest.len() / 2;
    let mut swapped = m.clone();
    swapped.rest = [&m.rest[half..], &m.rest[..half]].concat();
    assert!(matches!(open_legacy(&SK, &swapped), Ok(Opened::Incomplete { chunks: 0, .. })));
}

#[test]
fn bytes_after_the_last_chunk_are_ignored() {
    let mut m = seal(&contents(500));
    m.rest.extend_from_slice(&[0, 1, 2]);
    assert_eq!(opened_file(&m).1, contents(500));
}

#[test]
fn files_over_the_limit_are_refused() {
    let file = vec![0u8; MAX_FILE + 1];
    let r = seal_file(&SK, &init(), &me(), &[2; 32], "x", &file, &[3; 32], &[6; 12], &[7; 24]);
    assert_eq!(r.err(), Some(MeshError::FileTooLarge));
    assert_eq!(
        send_file(&SK, &init(), &me(), &[2; 32], "x", &file).err(),
        Some(MeshError::FileTooLarge)
    );
    assert_eq!((MAX_FILE, MAX_V3_BODY), (128 * 1024 * 1024, 132 * 1024 * 1024));
}

#[test]
fn sender_must_have_a_fingerprint() {
    let r = send_file(&SK, &init(), "ab", &[2; 32], "x", b"contents");
    assert_eq!(r.err(), Some(MeshError::FingerprintLength));
}

fn empty_file_header(fk: &str, base: &str, hash: &str) -> String {
    format!("{{\"fk\":\"{}\",\"base_nonce\":\"{}\",\"hash\":\"{}\"}}", fk, base, hash)
}

#[test]
fn malformed_file_headers() {
    let fk = b64_encode(&[3; 32]);
    let base = b64_encode(&[6; 12]);
    let hash = "0e5751c026e543b2e8ab2eb06099daa1d1e5df47778f7787faab45cdf12fe3a8".to_string();
    let open = |header: &str| open_legacy(&SK, &message(2, header, Vec::new()));
    assert!(matches!(open("no json"), Ok(Opened::NotJson)));
    assert_eq!(open("{}").err(), Some(MeshError::BadFileHeader));
    assert_eq!(open(&empty_file_header("?", &base, &hash)).err(), Some(MeshError::BadFileHeader));
    assert_eq!(open(&empty_file_header(&base, &base, &hash)).err(), Some(MeshError::BadFileHeader));
    assert_eq!(open(&empty_file_header(&fk, "?", &hash)).err(), Some(MeshError::BadFileHeader));
    assert_eq!(open(&empty_file_header(&fk, &fk, &hash)).err(), Some(MeshError::BadFileHeader));
    assert!(matches!(open(&empty_file_header(&fk, &base, "00")), Ok(Opened::HashMismatch)));
    match open(&empty_file_header(&fk, &base, &hash)) {
        Ok(Opened::File { name, bytes }) => {
            assert_eq!(name, "file.bin");
            assert!(bytes.is_empty());
        }
        other => panic!("{:?}", other),
    }
}

#[test]
fn texts_that_stand_alone() {
    let mut m = message(1, "anything", Vec::new());
    let body = xenc(&text_key(), &[8; 24], b"text", &m.header_ct).unwrap();
    m.rest = [vec![8u8; 24], body].concat();
    assert!(matches!(open_legacy(&SK, &m), Ok(Opened::Text(t)) if t == b"text".to_vec()));
    m.rest[30] ^= 1;
    assert!(matches!(open_legacy(&SK, &m), Ok(Opened::BodyFailed)));
    m.rest.truncate(23);
    assert!(matches!(open_legacy(&SK, &m), Ok(Opened::CutOff)));
}

#[test]
fn headers_under_the_nonce_of_zeros() {
    let mut m = message(7, "header", Vec::new());
    assert!(matches!(open_legacy(&SK, &m), Ok(Opened::Other)));
    m.header_ct = xenc(&header_key(), &[0; 24], b"header", b"").unwrap();
    assert!(matches!(open_legacy(&SK, &m), Ok(Opened::Other)));
    m.header_ct = xenc(&header_key(), &[1; 24], b"header", b"").unwrap();
    assert!(matches!(open_legacy(&SK, &m), Ok(Opened::HeaderFailed)));
}
