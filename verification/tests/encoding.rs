use mesh_crypto::encoding::{
    b64_decode, b64_decode_key, b64_encode, b64_encode_standard, fp_from_bytes, fp_to_bytes, hex_of,
};
use mesh_crypto::error::MeshError;

#[test]
fn base64_round_trip() {
    for len in 0..70usize {
        let bytes: Vec<u8> = (0..len).map(|i| (i * 37 + 11) as u8).collect();
        assert_eq!(b64_decode(&b64_encode(&bytes)), Ok(bytes.clone()));
        assert_eq!(b64_decode(&b64_encode_standard(&bytes)), Ok(bytes));
    }
}

#[test]
fn base64_texts() {
    assert_eq!(b64_encode(&[0xfb, 0xff, 0xfe, 0x01]), "-__-AQ");
    assert_eq!(b64_encode_standard(&[0xfb, 0xff, 0xfe, 0x01]), "+//+AQ==");
    assert_eq!(b64_decode("-__-AQ"), Ok(vec![0xfb, 0xff, 0xfe, 0x01]));
    assert_eq!(b64_decode("+//+AQ=="), Ok(vec![0xfb, 0xff, 0xfe, 0x01]));
    assert_eq!(b64_decode(""), Ok(Vec::new()));
}

#[test]
fn base64_is_trimmed_first() {
    assert_eq!(b64_decode(" \t-__-AQ\r\n"), Ok(vec![0xfb, 0xff, 0xfe, 0x01]));
    assert_eq!(b64_decode("\u{2003}AAAA\u{3000}"), Ok(vec![0, 0, 0]));
}

#[test]
fn base64_refusals() {
    for text in ["a", "-_+/", "AB CD", "AQ=", "h\u{e9}llo"] {
        assert_eq!(b64_decode(text), Err(MeshError::BadBase64), "{}", text);
    }
}

#[test]
fn base64_keys_have_32_bytes() {
    let key = [7u8; 32];
    assert_eq!(b64_decode_key(&b64_encode(&key), MeshError::PrekeyLength), Ok(key));
    assert_eq!(
        b64_decode_key(&b64_encode(&key[..31]), MeshError::PrekeyLength),
        Err(MeshError::PrekeyLength)
    );
    assert_eq!(b64_decode_key("?", MeshError::PrekeyLength), Err(MeshError::BadBase64));
}

#[test]
fn fingerprint_round_trip() {
    let mut bytes = [0u8; 32];
    for (i, b) in bytes.iter_mut().enumerate() {
        *b = (i * 8 + 3) as u8;
    }
    let fp = fp_from_bytes(&bytes);
    assert_eq!(fp.len(), 64);
    assert!(fp.starts_with("030b131b"));
    assert_eq!(fp_to_bytes(&fp), Ok(bytes));
    assert_eq!(fp_to_bytes(&fp.to_ascii_uppercase()), Ok(bytes));
}

#[test]
fn fingerprint_refusals() {
    assert_eq!(fp_to_bytes("00ff"), Err(MeshError::FingerprintLength));
    assert_eq!(fp_to_bytes(&"0".repeat(65)), Err(MeshError::FingerprintLength));
    assert_eq!(fp_to_bytes(&"0g".repeat(32)), Err(MeshError::BadHex));
    assert_eq!(fp_to_bytes(&"-1".repeat(32)), Err(MeshError::BadHex));
    assert_eq!(fp_to_bytes(&"1+".repeat(32)), Err(MeshError::BadHex));
}

#[test]
fn fingerprint_digits_take_no_sign() {
    assert_eq!(fp_to_bytes(&"+f".repeat(32)), Err(MeshError::BadHex));
    assert_eq!(fp_to_bytes(&format!("{}+f", "00".repeat(31))), Err(MeshError::BadHex));
}

#[test]
fn hex_of_any_bytes() {
    assert_eq!(hex_of(&[0x00, 0x0f, 0xa5, 0xff]), "000fa5ff");
    assert_eq!(hex_of(&[]), "");
}
