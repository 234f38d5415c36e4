use mesh_crypto::envelope::{
    drop_nonce, encode_dr, encode_legacy, is_x3dh_init, order_inbox, parse_message, DrMessage, Inbound,
    InitKeys, LegacyMessage,
};

fn dr(init: bool) -> DrMessage {
    DrMessage {
        init: if init {
            Some(InitKeys { ek_pub: [1; 32], spk_id: 0x01020304, opk_id: 0xffffffff })
        } else {
            None
        },
        sender_fp: [2; 32],
        sender_x: [3; 32],
        dh_pub: [4; 32],
        pn: 7,
        n: 0x00010002,
        header_nonce: [5; 24],
        header_ct: vec![6; 300],
        body_nonce: [7; 24],
        body_ct: vec![8, 9, 10],
    }
}

fn legacy(header_len: usize, rest_len: usize) -> LegacyMessage {
    LegacyMessage {
        kind: 2,
        init: InitKeys { ek_pub: [1; 32], spk_id: 9, opk_id: 8 },
        sender_fp: [2; 32],
        sender_x: [3; 32],
        header_nonce: [4; 24],
        header_ct: vec![5; header_len],
        rest: vec![6; rest_len],
    }
}

fn same_dr(a: &DrMessage, b: &DrMessage) -> bool {
    format!("{:?}", a) == format!("{:?}", b)
}

#[test]
fn session_messages_on_the_wire() {
    let wire = encode_dr(&dr(false));
    let mut expected = vec![4u8, 3];
    expected.extend_from_slice(&[2; 32]);
    expected.extend_from_slice(&[3; 32]);
    expected.extend_from_slice(&[4; 32]);
    expected.extend_from_slice(&[0, 0, 0, 7, 0, 1, 0, 2]);
    expected.extend_from_slice(&[5; 24]);
    expected.extend_from_slice(&[1, 44]);
    expected.extend_from_slice(&[6; 300]);
    expected.extend_from_slice(&[7; 24]);
    expected.extend_from_slice(&[8, 9, 10]);
    assert_eq!(wire, expected);
    let first = encode_dr(&dr(true));
    assert_eq!(first[..2], [4, 1]);
    assert_eq!(first[2..34], [1; 32]);
    assert_eq!(first[98..106], [1, 2, 3, 4, 255, 255, 255, 255]);
    assert_eq!(first[106..], expected[66..]);
}

#[test]
fn session_messages_are_read_back() {
    for init in [false, true] {
        let m = dr(init);
        match parse_message(&encode_dr(&m)) {
            Inbound::Dr(back) => assert!(same_dr(&m, &back)),
            other => panic!("{:?}", other),
        }
    }
}

#[test]
fn session_messages_may_have_an_empty_body() {
    let mut m = dr(false);
    m.body_ct = Vec::new();
    m.header_ct = Vec::new();
    match parse_message(&encode_dr(&m)) {
        Inbound::Dr(back) => assert!(same_dr(&m, &back)),
        other => panic!("{:?}", other),
    }
}

#[test]
fn session_messages_that_are_cut_off() {
    for init in [false, true] {
        let wire = encode_dr(&dr(init));
        for len in 2..wire.len() - 3 {
            assert!(matches!(parse_message(&wire[..len]), Inbound::CutOff), "{}", len);
        }
        assert!(matches!(parse_message(&wire[..wire.len() - 3]), Inbound::Dr(_)));
    }
}

#[test]
fn messages_that_are_not_known() {
    assert!(matches!(parse_message(&[]), Inbound::Short));
    assert!(matches!(parse_message(&[4]), Inbound::Short));
    assert!(matches!(parse_message(&[4, 2]), Inbound::UnknownSubtype(2)));
    assert!(matches!(parse_message(&[5, 1]), Inbound::UnknownVersion(5)));
    assert!(matches!(parse_message(&[3, 1]), Inbound::CutOff));
}

#[test]
fn messages_that_stand_alone_are_read_back() {
    let m = legacy(100, 25);
    let wire = encode_legacy(&m);
    assert_eq!(wire.len(), 106 + 24 + 2 + 100 + 25);
    match parse_message(&wire) {
        Inbound::Legacy(back) => assert_eq!(format!("{:?}", m), format!("{:?}", back)),
        other => panic!("{:?}", other),
    }
}

#[test]
fn messages_without_a_header_nonce() {
    // The old layout has the length of the header where the nonce would start.
    let m = legacy(40, 30);
    let wire = encode_legacy(&m);
    let mut old = wire[..106].to_vec();
    old.extend_from_slice(&[0, 40]);
    old.extend_from_slice(&[0xee; 40]);
    old.extend_from_slice(&[6; 30]);
    match parse_message(&old) {
        Inbound::Legacy(back) => {
            assert_eq!(back.header_nonce, [0; 24]);
            assert_eq!(back.header_ct, vec![0xee; 40]);
            assert_eq!(back.rest, vec![6; 30]);
            assert_eq!((back.init.spk_id, back.init.opk_id), (9, 8));
        }
        other => panic!("{:?}", other),
    }
}

#[test]
fn too_little_after_the_header_hides_the_nonce() {
    // With no more than a nonce after the header the message is taken for the old layout, whose
    // header length is then read out of the nonce.
    let mut m = legacy(40, 24);
    m.kind = 1;
    m.header_nonce = [0; 24];
    match parse_message(&encode_legacy(&m)) {
        Inbound::Legacy(back) => {
            assert!(back.header_ct.is_empty());
            assert_eq!(back.rest.len(), 22 + 2 + 40 + 24);
        }
        other => panic!("{:?}", other),
    }
    m.header_nonce = [4; 24];
    assert!(matches!(parse_message(&encode_legacy(&m)), Inbound::CutOff));
}

#[test]
fn files_keep_their_nonce_whatever_follows_the_header() {
    for (header_len, rest_len) in [(40, 0), (40, 24), (0, 0), (1999, 3), (2000, 100), (65535, 0)] {
        let m = legacy(header_len, rest_len);
        match parse_message(&encode_legacy(&m)) {
            Inbound::Legacy(back) => assert_eq!(format!("{:?}", m), format!("{:?}", back)),
            other => panic!("{:?}", other),
        }
    }
}

#[test]
fn files_are_read_without_a_nonce_on_demand() {
    let bare = LegacyMessage { header_nonce: [0; 24], ..legacy(40, 300) };
    let mut old = encode_legacy(&bare)[..106].to_vec();
    old.extend_from_slice(&[0, 40]);
    old.extend_from_slice(&[0; 40]);
    old.extend_from_slice(&[6; 300]);
    // The zeros in the middle are taken for a nonce and an empty header.
    match parse_message(&old) {
        Inbound::Legacy(first) => {
            assert!(first.header_ct.is_empty());
            let again = drop_nonce(&first).unwrap();
            assert_eq!(again.header_nonce, [0; 24]);
            assert_eq!(again.header_ct, vec![0; 40]);
            assert_eq!(again.rest, vec![6; 300]);
        }
        other => panic!("{:?}", other),
    }
    let far = LegacyMessage { header_nonce: [0xff; 24], ..legacy(40, 30) };
    assert!(drop_nonce(&far).is_none());
}

#[test]
fn messages_that_open_a_conversation() {
    assert!(is_x3dh_init(&[4, 1, 0]));
    assert!(is_x3dh_init(&[3, 1]));
    assert!(!is_x3dh_init(&[3, 2]));
    assert!(!is_x3dh_init(&[4, 3]));
    assert!(!is_x3dh_init(&[5, 1]));
    assert!(!is_x3dh_init(&[4]));
}

#[test]
fn inbox_order() {
    let inbox: Vec<(String, Vec<u8>)> = vec![
        ("a".to_string(), vec![4, 3]),
        ("b".to_string(), vec![4, 1]),
        ("c".to_string(), vec![3, 2]),
        ("d".to_string(), vec![3, 1]),
        ("e".to_string(), vec![]),
        ("f".to_string(), vec![4, 1]),
    ];
    let ordered = order_inbox(&inbox);
    let names: Vec<&str> = ordered.iter().map(|m| m.0.as_str()).collect();
    assert_eq!(names, vec!["b", "d", "f", "a", "c", "e"]);
    assert_eq!(ordered[3].1, vec![4, 3]);
}
