use ed25519_dalek::{Signer, SigningKey};
use mesh_crypto::encoding::{b64_encode, b64_encode_standard, fp_from_bytes};
use mesh_crypto::error::MeshError;
use mesh_crypto::kdf::hkdf_derive;
use mesh_crypto::x3dh::{
    check_bundle, load_prekey_priv, parse_bundle, x3dh_alice, x3dh_bob, x3dh_initiate, Bundle,
    OPK_NONE,
};
use x25519_dalek::{PublicKey, StaticSecret};

const SEED: [u8; 32] = [11; 32];
const BOB_X: [u8; 32] = [21; 32];
const BOB_SPK: [u8; 32] = [31; 32];
const BOB_OPK: [u8; 32] = [41; 32];
const ALICE_X: [u8; 32] = [51; 32];
const EK: [u8; 32] = [61; 32];

fn public(private: [u8; 32]) -> [u8; 32] {
    PublicKey::from(&StaticSecret::from(private)).to_bytes()
}

fn dh(private: [u8; 32], public_key: [u8; 32]) -> [u8; 32] {
    StaticSecret::from(private).diffie_hellman(&PublicKey::from(public_key)).to_bytes()
}

fn bob_fp() -> String {
    fp_from_bytes(&SigningKey::from_bytes(&SEED).verifying_key().to_bytes())
}

fn alice_fp() -> String {
    "ab".repeat(32)
}

fn sign(key: &[u8]) -> Vec<u8> {
    SigningKey::from_bytes(&SEED).sign(key).to_bytes().to_vec()
}

fn bundle() -> Bundle {
    Bundle {
        x_id_pub: Some(b64_encode(&public(BOB_X))),
        x_id_sig: Some(b64_encode(&sign(&public(BOB_X)))),
        spk_pub: Some(b64_encode(&public(BOB_SPK))),
        spk_sig: Some(b64_encode_standard(&sign(&public(BOB_SPK)))),
        spk_id: Some(77),
        opk_pub: Some(b64_encode(&public(BOB_OPK))),
        opk_id: Some(5),
    }
}

#[test]
fn published_bundle_is_accepted() {
    let keys = check_bundle(&bob_fp().to_ascii_uppercase(), &bundle()).unwrap();
    assert_eq!(keys.x_id, public(BOB_X));
    assert_eq!(keys.spk, public(BOB_SPK));
    assert_eq!(keys.opk, Some(public(BOB_OPK)));
    assert_eq!((keys.spk_id, keys.opk_id), (77, 5));
}

#[test]
fn secret_is_the_hash_of_the_agreements() {
    let keys = check_bundle(&bob_fp(), &bundle()).unwrap();
    let (sk, ek_pub, spk_id, opk_id) =
        x3dh_initiate(&ALICE_X, &alice_fp(), &bob_fp(), &keys, &EK).unwrap();
    assert_eq!(ek_pub, public(EK));
    assert_eq!((spk_id, opk_id), (77, 5));
    let mut ikm = Vec::new();
    ikm.extend_from_slice(&dh(ALICE_X, public(BOB_SPK)));
    ikm.extend_from_slice(&dh(EK, public(BOB_X)));
    ikm.extend_from_slice(&dh(EK, public(BOB_SPK)));
    ikm.extend_from_slice(&dh(EK, public(BOB_OPK)));
    let mut info = b"mesh-v3-x3dh v1".to_vec();
    info.extend_from_slice(&[0xab; 32]);
    info.extend_from_slice(&SigningKey::from_bytes(&SEED).verifying_key().to_bytes());
    info.extend_from_slice(&[0, 0, 0, 77, 0, 0, 0, 5]);
    assert_eq!(sk, hkdf_derive(&ikm, &info, 32).unwrap());
}

#[test]
fn both_sides_agree_with_a_one_time_prekey() {
    let (sk, ek_pub, spk_id, opk_id) =
        x3dh_alice(&ALICE_X, &alice_fp(), &bob_fp(), &bundle()).unwrap();
    let bob = x3dh_bob(
        &BOB_X,
        &bob_fp(),
        &alice_fp(),
        &public(ALICE_X),
        &ek_pub,
        spk_id,
        opk_id,
        Some(&b64_encode(&BOB_SPK)),
        Some(&format!("{}\n", b64_encode(&BOB_OPK))),
    );
    assert_eq!(bob, Ok(sk));
}

#[test]
fn both_sides_agree_without_a_one_time_prekey() {
    let mut b = bundle();
    b.opk_pub = None;
    b.opk_id = None;
    let (sk, ek_pub, spk_id, opk_id) = x3dh_alice(&ALICE_X, &alice_fp(), &bob_fp(), &b).unwrap();
    assert_eq!(opk_id, OPK_NONE);
    let bob = x3dh_bob(
        &BOB_X,
        &bob_fp(),
        &alice_fp(),
        &public(ALICE_X),
        &ek_pub,
        spk_id,
        opk_id,
        Some(&b64_encode(&BOB_SPK)),
        None,
    );
    assert_eq!(bob, Ok(sk));
}

#[test]
fn ephemeral_keys_are_fresh() {
    let (one, ..) = x3dh_alice(&ALICE_X, &alice_fp(), &bob_fp(), &bundle()).unwrap();
    let (other, ..) = x3dh_alice(&ALICE_X, &alice_fp(), &bob_fp(), &bundle()).unwrap();
    assert_ne!(one, other);
}

#[test]
fn prekey_numbers_default_and_wrap() {
    let mut b = bundle();
    b.spk_id = None;
    b.opk_id = None;
    let keys = check_bundle(&bob_fp(), &b).unwrap();
    assert_eq!((keys.spk_id, keys.opk_id), (0, OPK_NONE));
    b.spk_id = Some(0x1_0000_0007);
    b.opk_id = Some(0xffff_ffff_0000_0001);
    let keys = check_bundle(&bob_fp(), &b).unwrap();
    assert_eq!((keys.spk_id, keys.opk_id), (7, 1));
}

fn refused(change: fn(&mut Bundle)) -> MeshError {
    let mut b = bundle();
    change(&mut b);
    match check_bundle(&bob_fp(), &b) {
        Err(e) => {
            assert_eq!(x3dh_alice(&ALICE_X, &alice_fp(), &bob_fp(), &b), Err(e));
            e
        }
        Ok(_) => panic!("accepted"),
    }
}

#[test]
fn bundle_refusals() {
    assert_eq!(refused(|b| b.x_id_pub = None), MeshError::MissingIdentityKey);
    assert_eq!(refused(|b| b.x_id_sig = None), MeshError::MissingIdentitySignature);
    assert_eq!(refused(|b| b.spk_pub = None), MeshError::MissingSignedPrekey);
    assert_eq!(refused(|b| b.spk_sig = None), MeshError::MissingPrekeySignature);
    assert_eq!(
        refused(|b| b.x_id_sig = Some(b64_encode(&sign(b"other")))),
        MeshError::BadIdentitySignature
    );
    assert_eq!(
        refused(|b| b.spk_sig = Some(b64_encode(&sign(b"other")))),
        MeshError::BadPrekeySignature
    );
    assert_eq!(refused(|b| b.x_id_pub = Some("?".to_string())), MeshError::BadBase64);
    assert_eq!(
        refused(|b| b.spk_sig = Some(b64_encode(&[1, 2, 3]))),
        MeshError::SignatureLength
    );
    assert_eq!(refused(|b| b.opk_pub = Some("?".to_string())), MeshError::BundleKeyLength);
    assert_eq!(refused(|b| b.opk_pub = Some(b64_encode(&[0; 31]))), MeshError::BundleKeyLength);
    assert_eq!(
        refused(|b| {
            b.spk_pub = Some(b64_encode(&[9; 31]));
            b.spk_sig = Some(b64_encode(&sign(&[9; 31])));
        }),
        MeshError::BundleKeyLength
    );
}

#[test]
fn first_fault_of_a_bundle_counts() {
    let mut b = bundle();
    b.x_id_sig = None;
    b.spk_pub = None;
    assert_eq!(check_bundle(&bob_fp(), &b).err(), Some(MeshError::MissingIdentitySignature));
    assert_eq!(check_bundle("ab", &bundle()).err(), Some(MeshError::FingerprintLength));
}

#[test]
fn own_fingerprint_must_be_sound() {
    let keys = check_bundle(&bob_fp(), &bundle()).unwrap();
    assert_eq!(
        x3dh_initiate(&ALICE_X, "ab", &bob_fp(), &keys, &EK),
        Err(MeshError::FingerprintLength)
    );
}

#[test]
fn prekey_files() {
    assert_eq!(load_prekey_priv(None), Err(MeshError::PrekeyMissing));
    assert_eq!(load_prekey_priv(Some("!")), Err(MeshError::BadBase64));
    assert_eq!(load_prekey_priv(Some(&b64_encode(&[1; 33]))), Err(MeshError::PrekeyLength));
    assert_eq!(load_prekey_priv(Some(&b64_encode(&[1; 32]))), Ok([1; 32]));
}

#[test]
fn responder_needs_the_prekeys_that_were_used() {
    let respond = |spk: Option<&str>, opk_id: u32, opk: Option<&str>| {
        x3dh_bob(
            &BOB_X,
            &bob_fp(),
            &alice_fp(),
            &public(ALICE_X),
            &public(EK),
            77,
            opk_id,
            spk,
            opk,
        )
    };
    let spk = b64_encode(&BOB_SPK);
    assert_eq!(respond(None, OPK_NONE, None), Err(MeshError::PrekeyMissing));
    assert_eq!(respond(Some(&spk), 5, None), Err(MeshError::PrekeyMissing));
    assert!(respond(Some(&spk), OPK_NONE, None).is_ok());
    assert_ne!(respond(Some(&spk), OPK_NONE, None), respond(Some(&spk), 5, Some(&spk)));
}

#[test]
fn bundles_are_read_from_json() {
    let reply = br#"{"x_id_pub":"a","x_id_sig":"b","spk_pub":"c","spk_sig":"d","spk_id":3,"opk_pub":"e","opk_id":4}"#;
    let b = parse_bundle(reply).unwrap();
    assert_eq!(b.x_id_pub.as_deref(), Some("a"));
    assert_eq!(b.x_id_sig.as_deref(), Some("b"));
    assert_eq!(b.spk_pub.as_deref(), Some("c"));
    assert_eq!(b.spk_sig.as_deref(), Some("d"));
    assert_eq!(b.opk_pub.as_deref(), Some("e"));
    assert_eq!((b.spk_id, b.opk_id), (Some(3), Some(4)));
    let b = parse_bundle(br#"{"spk_id":"3","opk_id":-1,"spk_pub":7}"#).unwrap();
    assert_eq!((b.spk_id, b.opk_id, b.spk_pub), (None, None, None));
    assert_eq!(parse_bundle(b"not json").err(), Some(MeshError::BadReply));
}
