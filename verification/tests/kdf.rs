use hmac::{Hmac, Mac};
use mesh_crypto::encoding::{b64_encode, hex_of};
use mesh_crypto::error::MeshError;
use mesh_crypto::kdf::{
    cdec, cenc, ed_verify, generate_dh_keypair, hkdf_derive, hkdf_derive_salt, kdf_ck, kdf_rk, xdec,
    xenc,
};
use sha2::Sha256;

fn unhex(text: &str) -> Vec<u8> {
    hex::decode(text).unwrap()
}

#[test]
fn hkdf_with_a_salt() {
    let ikm = [0x0bu8; 22];
    let salt: Vec<u8> = (0u8..=0x0c).collect();
    let info: Vec<u8> = (0xf0u8..=0xf9).collect();
    let okm = hkdf_derive_salt(&salt, &ikm, &info, 42).unwrap();
    assert_eq!(
        hex_of(&okm),
        "3cb25f25faacd57a90434f64d0362f2a2d2d0a90cf1a5a4c5db02d56ecc4c5bf34007208d5b887185865"
    );
}

#[test]
fn hkdf_without_a_salt() {
    let okm = hkdf_derive(&[0x0bu8; 22], &[], 42).unwrap();
    assert_eq!(
        hex_of(&okm),
        "8da4e775a563c18f715f802a063c5a31b8a11f5c5ee1879ec3454e5f3c738d2d9d201395faa4b61a96c8"
    );
}

#[test]
fn hkdf_lengths() {
    assert_eq!(hkdf_derive(b"k", b"i", 0), Ok(Vec::new()));
    assert_eq!(hkdf_derive(b"k", b"i", 8160).unwrap().len(), 8160);
    assert_eq!(hkdf_derive(b"k", b"i", 8161), Err(MeshError::DerivedLength));
    assert_eq!(hkdf_derive_salt(b"s", b"k", b"i", 8161), Err(MeshError::DerivedLength));
}

#[test]
fn shorter_derivations_are_prefixes() {
    let long = hkdf_derive(b"key", b"info", 100).unwrap();
    let salted = hkdf_derive_salt(b"salt", b"key", b"info", 100).unwrap();
    assert_ne!(long, salted);
    for len in [0, 1, 31, 32, 33, 64, 99] {
        assert_eq!(hkdf_derive(b"key", b"info", len).unwrap(), long[..len].to_vec());
        let short = hkdf_derive_salt(b"salt", b"key", b"info", len).unwrap();
        assert_eq!(short, salted[..len].to_vec());
    }
}

#[test]
fn plain_salts_make_no_difference() {
    let none = hkdf_derive(b"key", b"info", 80).unwrap();
    assert_eq!(hkdf_derive_salt(&[], b"key", b"info", 80).unwrap(), none);
    assert_eq!(hkdf_derive_salt(&[0; 32], b"key", b"info", 80).unwrap(), none);
    assert_ne!(hkdf_derive_salt(&[1; 32], b"key", b"info", 80).unwrap(), none);
}

#[test]
fn altered_tags_are_refused() {
    let long = xenc(&[3; 32], &[4; 24], b"text", b"aad").unwrap();
    let short = cenc(&[3; 32], &[4; 12], b"text", b"aad").unwrap();
    for bit in 0..128usize {
        let mut ct = long.clone();
        ct[4 + bit / 8] ^= 1 << (bit % 8);
        assert_eq!(xdec(&[3; 32], &[4; 24], &ct, b"aad"), Err(MeshError::Decrypt));
        let mut ct = short.clone();
        ct[4 + bit / 8] ^= 1 << (bit % 8);
        assert_eq!(cdec(&[3; 32], &[4; 12], &ct, b"aad"), Err(MeshError::Decrypt));
    }
}

#[test]
fn root_chain_step() {
    let rk = [1u8; 32];
    let dh = [2u8; 32];
    let okm = hkdf_derive_salt(&rk, &dh, b"mesh-v3-rk", 64).unwrap();
    let (root, chain) = kdf_rk(&rk, &dh).unwrap();
    assert_eq!(root, okm[..32].to_vec());
    assert_eq!(chain, okm[32..].to_vec());
    assert_ne!(root, rk.to_vec());
}

#[test]
fn message_chain_step() {
    let ck = [9u8; 32];
    let tag = |m: u8| {
        let mut mac = <Hmac<Sha256> as Mac>::new_from_slice(&ck).unwrap();
        mac.update(&[m]);
        mac.finalize().into_bytes().to_vec()
    };
    assert_eq!(kdf_ck(&ck), Ok((tag(1), tag(2))));
}

#[test]
fn xchacha_known_answer() {
    let mut key = [0u8; 32];
    for (i, b) in key.iter_mut().enumerate() {
        *b = 0x80 + i as u8;
    }
    let mut nonce = [0u8; 24];
    for (i, b) in nonce.iter_mut().enumerate() {
        *b = 0x40 + i as u8;
    }
    let aad = unhex("50515253c0c1c2c3c4c5c6c7");
    let pt = b"Ladies and Gentlemen of the class of '99: If I could offer you only one tip for the future, sunscreen would be it.";
    let ct = xenc(&key, &nonce, pt, &aad).unwrap();
    assert_eq!(ct.len(), pt.len() + 16);
    assert!(hex_of(&ct).starts_with("bd6d179d3e83d43b9576579493c0e939572a1700252bfaccbed2902c21396cbb"));
    assert!(hex_of(&ct).ends_with("c0875924c1c7987947deafd8780acf49"));
    assert_eq!(xdec(&key, &nonce, &ct, &aad), Ok(pt.to_vec()));
}

#[test]
fn xchacha_refusals() {
    let key = [3u8; 32];
    let nonce = [4u8; 24];
    let mut ct = xenc(&key, &nonce, b"text", b"aad").unwrap();
    assert_eq!(xdec(&key, &nonce, &ct, b"other"), Err(MeshError::Decrypt));
    assert_eq!(xdec(&[0u8; 32], &nonce, &ct, b"aad"), Err(MeshError::Decrypt));
    assert_eq!(xdec(&key, &[0u8; 24], &ct, b"aad"), Err(MeshError::Decrypt));
    assert_eq!(xdec(&key, &nonce, &ct[..15], b"aad"), Err(MeshError::Decrypt));
    ct[0] ^= 1;
    assert_eq!(xdec(&key, &nonce, &ct, b"aad"), Err(MeshError::Decrypt));
}

#[test]
fn chacha_known_answer() {
    let mut key = [0u8; 32];
    for (i, b) in key.iter_mut().enumerate() {
        *b = 0x80 + i as u8;
    }
    let nonce = [7u8, 0, 0, 0, 0x40, 0x41, 0x42, 0x43, 0x44, 0x45, 0x46, 0x47];
    let aad = unhex("50515253c0c1c2c3c4c5c6c7");
    let pt = b"Ladies and Gentlemen of the class of '99: If I could offer you only one tip for the future, sunscreen would be it.";
    let ct = cenc(&key, &nonce, pt, &aad).unwrap();
    assert!(hex_of(&ct).starts_with("d31a8d34648e60db7b86afbc53ef7ec2"));
    assert!(hex_of(&ct).ends_with("1ae10b594f09e26a7e902ecbd0600691"));
    assert_eq!(cdec(&key, &nonce, &ct, &aad), Ok(pt.to_vec()));
    assert_eq!(cdec(&key, &[0u8; 12], &ct, &aad), Err(MeshError::Decrypt));
    assert_eq!(cdec(&key, &nonce, &[], &aad), Err(MeshError::Decrypt));
}

#[test]
fn signatures() {
    let fp = "d75a980182b10ab7d54bfed3c964073a0ee172f3daa62325af021a68f707511a";
    let sig = unhex("e5564300c360ac729086e2cc806e828a84877f1eb8e5d974d873e065224901555fb8821590a33bacc61e39701cf9b46bd25bf5f0595bbe24655141438e7a100b");
    assert_eq!(ed_verify(fp, b"", &b64_encode(&sig)), Ok(true));
    assert_eq!(ed_verify(fp, b"x", &b64_encode(&sig)), Ok(false));
    assert_eq!(ed_verify(fp, b"", &b64_encode(&sig[..63])), Err(MeshError::SignatureLength));
    assert_eq!(ed_verify(fp, b"", "*"), Err(MeshError::BadBase64));
    assert_eq!(ed_verify("00", b"", &b64_encode(&sig)), Err(MeshError::FingerprintLength));
    assert_eq!(ed_verify(&"zz".repeat(32), b"", &b64_encode(&sig)), Err(MeshError::BadHex));
}

#[test]
fn fingerprints_that_are_no_keys() {
    let sig = b64_encode(&[0u8; 64]);
    let refused = (0u8..32)
        .map(|i| format!("{:02x}{}", i, "00".repeat(31)))
        .filter(|fp| ed_verify(fp, b"", &sig) == Err(MeshError::BadVerifyingKey))
        .count();
    assert!(refused > 0);
}

#[test]
fn drawn_key_pairs_belong_together() {
    let (private, public) = generate_dh_keypair().unwrap();
    let secret = x25519_dalek::StaticSecret::from(private);
    assert_eq!(x25519_dalek::PublicKey::from(&secret).to_bytes(), public);
    let (other, _) = generate_dh_keypair().unwrap();
    assert_ne!(private, other);
}
