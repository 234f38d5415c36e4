//! Publishing prekeys: what the server is told, and what is kept for it.
use vstd::prelude::*;
use vstd::string::*;

use crate::bytes::KEY_LEN;
use crate::encoding::{b64_encode, b64_encode_standard};
use crate::error::MeshError;
use crate::json::write_object_with_list;
use crate::paths::{join, opk_path, prekeys_dir, spk_path};
use crate::primitives::{ed25519_sign, random_array, x25519_public_key};
use crate::text::{decimal_int_text, decimal_text, trim};
use crate::x3dh::OPK_NONE;

verus! {

use vstd::utf8::encode_utf8;
use crate::b64::{b64std_text, b64url_text};
use crate::encoding::{
    b64_bytes,
    fp_bytes,
    law_b64_reads_back,
    law_b64_standard_reads_back,
    law_fingerprint_round_trip,
};
use crate::identity::lemma_hex_solid;
use crate::json::{
    distinct_names,
    is_json,
    json_list,
    json_number,
    json_object_with_list,
    json_text,
    list_items,
    no_member,
    number_members,
    text_members,
};
use crate::kdf::signature_holds;
use crate::paths::{joined, law_prekey_files_differ, prekey_file};
use crate::primitives::{
    ed25519_is_key,
    ed25519_public,
    ed25519_signature,
    hex_text,
    neutral_point,
    x25519_public,
};
use crate::text::{decimal, decimal_int, decimal_value, law_decimal_reads_back, trimmed};
use crate::x3dh::{
    agree,
    checked_keys,
    initiated,
    law_both_sides_agree,
    published_keys,
    responded,
    stored_prekey,
    BundleView,
    PeerKeysView,
};

/// The number of one-time prekeys that are published at a time.
pub const OPK_COUNT: usize = 100;

/// Numbers of signed prekeys stay below this.
pub const SPK_ID_LIMIT: u32 = 1_000_000;

/// What publishing prekeys takes.
#[derive(Debug, Clone)]
pub struct Publication {
    /// The files of the one-time prekeys, by path below the home directory.
    pub opk_files: Vec<(String, String)>,
    /// The files of the signed prekey, by path below the home directory.
    pub spk_files: Vec<(String, String)>,
    /// The body of the request.
    pub body: String,
}

/// The files of the one-time prekeys: each private key under its number.
pub open spec fn opk_entries(opks: Seq<[u8; 32]>) -> Seq<(Seq<char>, Seq<char>)> {
    Seq::new(opks.len(), |i: int| (prekey_file("opk"@, i as u32), b64url_text(opks[i]@)))
}

/// The one-time prekeys in the request: each public key with its number.
pub open spec fn opk_items(opks: Seq<[u8; 32]>) -> Seq<(int, Seq<char>)> {
    Seq::new(opks.len(), |i: int| (i, b64url_text(x25519_public(opks[i]@))))
}

/// A file in the directory of the prekeys.
pub open spec fn beside_prekeys(name: Seq<char>) -> Seq<char> {
    joined(joined(".mesh-v3"@, "prekeys"@), name)
}

/// The files of the signed prekey: the private key under its number and as the latest one, the
/// number, and the time.
pub open spec fn spk_entries(spk_priv: Seq<u8>, spk_id: u32, now: i64) -> Seq<
    (Seq<char>, Seq<char>),
> {
    seq![
        (prekey_file("spk"@, spk_id), b64url_text(spk_priv)),
        (beside_prekeys("spk_priv"@), b64url_text(spk_priv)),
        (beside_prekeys("spk_id"@), decimal(spk_id as nat)),
        (beside_prekeys("spk_created_at"@), decimal_int(now as int)),
    ]
}

/// Every published one-time prekey goes under the number of its file: the file that a number names
/// holds the private key of the public key that goes with the number, and no number occurs twice.
pub open spec fn numbers_name_files(
    items: Seq<(int, Seq<char>)>,
    files: Seq<(Seq<char>, Seq<char>)>,
) -> bool {
    &&& items.len() == files.len()
    &&& forall|i: int|
        0 <= i < items.len() ==> {
            let (number, public) = #[trigger] items[i];
            &&& 0 <= number < 0xffff_ffff
            &&& files[i].0 == prekey_file("opk"@, number as u32)
            &&& b64_bytes(files[i].1) matches Some(private) && b64_bytes(public) == Some(
                x25519_public(private),
            )
        }
    &&& forall|i: int, j: int|
        0 <= i < j < items.len() ==> (#[trigger] items[i]).0 != (#[trigger] items[j]).0
    &&& forall|i: int, j: int|
        0 <= i < j < files.len() ==> (#[trigger] files[i]).0 != (#[trigger] files[j]).0
}

/// The numbers of the published one-time prekeys are those of their files: the first is zero, and
/// each is one more than the one before.
pub proof fn law_numbers_name_files(opks: Seq<[u8; 32]>)
    requires
        opks.len() < 0xffff_ffff,
    ensures
        numbers_name_files(opk_items(opks), opk_entries(opks)),
        forall|i: int|
            0 <= i < opks.len() ==> (#[trigger] opk_items(opks)[i]).0 == i && b64_bytes(
                opk_entries(opks)[i].1,
            ) == Some(opks[i]@),
{
    broadcast use law_b64_reads_back;

    reveal_strlit("opk");
    let items = opk_items(opks);
    let files = opk_entries(opks);
    assert forall|i: int| 0 <= i < items.len() implies {
        let (number, public) = #[trigger] items[i];
        &&& 0 <= number < 0xffff_ffff
        &&& files[i].0 == prekey_file("opk"@, number as u32)
        &&& b64_bytes(files[i].1) matches Some(private) && b64_bytes(public) == Some(
            x25519_public(private),
        )
    } by {}
    assert forall|i: int, j: int| 0 <= i < j < files.len() implies (#[trigger] files[i]).0 != (
    #[trigger] files[j]).0 by {
        if files[i].0 == files[j].0 {
            law_prekey_files_differ("opk"@, i as u32, j as u32);
        }
    }
}

/// A published one-time prekey serves: whoever is handed the public key and the number of one, and
/// agrees on a secret with it, has the secret of the owner, who loads the private key from the file
/// that the number names.
pub proof fn law_published_prekey_serves(
    opks: Seq<[u8; 32]>,
    i: int,
    x_priv: Seq<u8>,
    spk_priv: Seq<u8>,
    spk_id: u32,
    peer_x_priv: Seq<u8>,
    ek_priv: Seq<u8>,
    my_fp: Seq<char>,
    peer_fp: Seq<char>,
)
    requires
        opks.len() < 0xffff_ffff,
        0 <= i < opks.len(),
        spk_priv.len() == 32,
        fp_bytes(my_fp) is Ok,
        fp_bytes(peer_fp) is Ok,
        agree(peer_x_priv, spk_priv),
        agree(ek_priv, x_priv),
        agree(ek_priv, spk_priv),
        agree(ek_priv, opks[i]@),
    ensures
        ({
            let (number, public) = opk_items(opks)[i];
            let keys = PeerKeysView {
                x_id: x25519_public(x_priv),
                spk: x25519_public(spk_priv),
                opk: b64_bytes(public),
                spk_id,
                opk_id: number as u32,
            };
            exists|j: int|
                {
                    &&& 0 <= j < opk_entries(opks).len()
                    &&& (#[trigger] opk_entries(opks)[j]).0 == prekey_file("opk"@, number as u32)
                    &&& initiated(peer_x_priv, peer_fp, my_fp, keys, ek_priv) matches Ok(t)
                    &&& responded(
                        x_priv,
                        my_fp,
                        peer_fp,
                        x25519_public(peer_x_priv),
                        t.1,
                        t.2,
                        t.3,
                        Some(b64url_text(spk_priv)),
                        Some(opk_entries(opks)[j].1),
                    ) == Ok::<Seq<u8>, MeshError>(t.0)
                }
        }),
{
    broadcast use law_b64_reads_back;

    law_numbers_name_files(opks);
    let (number, public) = opk_items(opks)[i];
    assert(opk_entries(opks)[i].0 == prekey_file("opk"@, number as u32));
    assert(opk_entries(opks)[i].1 == b64url_text(opks[i]@));
    let keys = published_keys(x_priv, spk_priv, Some(opks[i]@), spk_id, number as u32);
    assert(b64_bytes(public) == Some(x25519_public(opks[i]@)));
    assert(keys == PeerKeysView {
        x_id: x25519_public(x_priv),
        spk: x25519_public(spk_priv),
        opk: b64_bytes(public),
        spk_id,
        opk_id: number as u32,
    });
    law_both_sides_agree(
        x_priv,
        spk_priv,
        Some(opks[i]@),
        spk_id,
        number as u32,
        Some(opk_entries(opks)[i].1),
        peer_x_priv,
        ek_priv,
        my_fp,
        peer_fp,
    );
}

/// The signed prekey can be loaded from the file of its number, and as the latest one; and the
/// number can be read from its own file.
pub proof fn law_signed_prekey_is_kept(spk_priv: Seq<u8>, spk_id: u32, now: i64)
    requires
        spk_priv.len() == 32,
    ensures
        exists|i: int|
            0 <= i < spk_entries(spk_priv, spk_id, now).len() && (#[trigger] spk_entries(
                spk_priv,
                spk_id,
                now,
            )[i]).0 == prekey_file("spk"@, spk_id) && stored_prekey(
                Some(spk_entries(spk_priv, spk_id, now)[i].1),
            ) == Ok::<Seq<u8>, MeshError>(spk_priv),
        exists|i: int|
            0 <= i < spk_entries(spk_priv, spk_id, now).len() && (#[trigger] spk_entries(
                spk_priv,
                spk_id,
                now,
            )[i]).0 == beside_prekeys("spk_priv"@) && stored_prekey(
                Some(spk_entries(spk_priv, spk_id, now)[i].1),
            ) == Ok::<Seq<u8>, MeshError>(spk_priv),
        exists|i: int|
            0 <= i < spk_entries(spk_priv, spk_id, now).len() && (#[trigger] spk_entries(
                spk_priv,
                spk_id,
                now,
            )[i]).0 == beside_prekeys("spk_id"@) && decimal_value(
                spk_entries(spk_priv, spk_id, now)[i].1,
            ) == spk_id,
        exists|i: int|
            0 <= i < spk_entries(spk_priv, spk_id, now).len() && (#[trigger] spk_entries(
                spk_priv,
                spk_id,
                now,
            )[i]).0 == beside_prekeys("spk_created_at"@) && (now >= 0 ==> decimal_value(
                spk_entries(spk_priv, spk_id, now)[i].1,
            ) == now),
        spk_entries(spk_priv, spk_id, now).len() == 4,
{
    broadcast use law_b64_reads_back;

    law_decimal_reads_back(spk_id as nat);
    if now >= 0 {
        law_decimal_reads_back(now as nat);
    }
    let s = spk_entries(spk_priv, spk_id, now);
    assert(s[0].0 == prekey_file("spk"@, spk_id));
    assert(s[1].0 == beside_prekeys("spk_priv"@));
    assert(s[2].0 == beside_prekeys("spk_id"@));
    assert(s[3].0 == beside_prekeys("spk_created_at"@));
}

/// The body of the request: the identity key and its signature, the signed prekey with its number
/// and its signature, and the one-time prekeys.
pub open spec fn publication_body(
    ed_seed: Seq<u8>,
    x_pub: Seq<u8>,
    x_id_sig: Seq<char>,
    spk_priv: Seq<u8>,
    spk_id: u32,
    opks: Seq<[u8; 32]>,
) -> Seq<char> {
    json_object_with_list(
        seq![
            ("x_id_pub"@, b64url_text(x_pub)),
            ("x_id_sig"@, trimmed(x_id_sig)),
            ("spk_pub"@, b64url_text(x25519_public(spk_priv))),
            ("spk_sig"@, b64std_text(ed25519_signature(ed_seed, x25519_public(spk_priv)))),
        ],
        seq![("spk_id"@, spk_id as int)],
        "opks"@,
        opk_items(opks),
        "id"@,
        "pub"@,
    )
}

/// The members of a publication can be read out of the body of the request: the two public keys and
/// their signatures, the number of the signed prekey, and the public one-time prekeys.
pub open spec fn publication_readable(
    body: Seq<u8>,
    ed_seed: Seq<u8>,
    x_pub: Seq<u8>,
    x_id_sig: Seq<char>,
    spk_priv: Seq<u8>,
    spk_id: u32,
    opks: Seq<[u8; 32]>,
) -> bool {
    &&& is_json(body)
    &&& json_text(body, "x_id_pub"@) == Some(b64url_text(x_pub))
    &&& json_text(body, "x_id_sig"@) == Some(trimmed(x_id_sig))
    &&& json_text(body, "spk_pub"@) == Some(b64url_text(x25519_public(spk_priv)))
    &&& json_text(body, "spk_sig"@) == Some(
        b64std_text(ed25519_signature(ed_seed, x25519_public(spk_priv))),
    )
    &&& json_number(body, "spk_id"@) == Some(spk_id as u64)
    &&& json_list(body, "opks"@, "pub"@) == Some(
        Seq::new(opks.len(), |i: int| Some(b64url_text(x25519_public(opks[i]@)))),
    )
}

proof fn lemma_publication_names(
    texts: Seq<(Seq<char>, Seq<char>)>,
    numbers: Seq<(Seq<char>, int)>,
)
    requires
        texts.len() == 4,
        numbers.len() == 1,
        texts[0].0 == "x_id_pub"@,
        texts[1].0 == "x_id_sig"@,
        texts[2].0 == "spk_pub"@,
        texts[3].0 == "spk_sig"@,
        numbers[0].0 == "spk_id"@,
    ensures
        distinct_names(texts, numbers),
        no_member(texts, numbers, "opks"@),
        "id"@ != "pub"@,
{
    reveal_strlit("x_id_pub");
    reveal_strlit("x_id_sig");
    reveal_strlit("spk_pub");
    reveal_strlit("spk_sig");
    reveal_strlit("spk_id");
    reveal_strlit("opks");
    reveal_strlit("id");
    reveal_strlit("pub");
    assert(texts[0].0.len() == 8 && texts[1].0.len() == 8);
    assert(texts[2].0.len() == 7 && texts[3].0.len() == 7);
    assert(texts[0].0[5] == 'p' && texts[1].0[5] == 's');
    assert(texts[2].0[4] == 'p' && texts[3].0[4] == 's');
    assert(numbers[0].0.len() == 6 && "opks"@.len() == 4);
    assert("id"@.len() == 2 && "pub"@.len() == 3);
    assert forall|i: int, j: int| 0 <= i < j < texts.len() implies (#[trigger] texts[i]).0 != (
    #[trigger] texts[j]).0 by {
        assert(texts[i].0.len() != texts[j].0.len() || texts[i].0[5] != texts[j].0[5]
            || texts[i].0[4] != texts[j].0[4]);
    }
}

/// The body of the request lists `count` one-time prekeys, each under the number of its file.
pub open spec fn publishes_by_number(
    body: Seq<char>,
    files: Seq<(Seq<char>, Seq<char>)>,
    count: nat,
) -> bool {
    exists|
        texts: Seq<(Seq<char>, Seq<char>)>,
        numbers: Seq<(Seq<char>, int)>,
        items: Seq<(int, Seq<char>)>,
    |
        {
            &&& body == #[trigger] json_object_with_list(
                texts,
                numbers,
                "opks"@,
                items,
                "id"@,
                "pub"@,
            )
            &&& items.len() == count
            &&& numbers_name_files(items, files)
        }
}

/// Builds a publication from private keys. Each prekey that is published can be loaded again from
/// its file, and the members of the request can be read out of its body. The signature of the
/// signed prekey holds.
pub fn build_publication(
    ed_seed: &[u8; 32],
    x_pub: &[u8; 32],
    x_id_sig: &str,
    spk_priv: &[u8; 32],
    spk_id: u32,
    opks: &Vec<[u8; 32]>,
    now: i64,
) -> (r: Publication)
    requires
        opks@.len() <= u32::MAX,
    ensures
        text_members(r.opk_files@) == opk_entries(opks@),
        text_members(r.spk_files@) == spk_entries(spk_priv@, spk_id, now),
        r.body@ == publication_body(ed_seed@, x_pub@, x_id_sig@, spk_priv@, spk_id, opks@),
        publication_readable(
            encode_utf8(r.body@),
            ed_seed@,
            x_pub@,
            x_id_sig@,
            spk_priv@,
            spk_id,
            opks@,
        ),
        stored_prekey(Some(b64url_text(spk_priv@))) == Ok::<Seq<u8>, MeshError>(spk_priv@),
        forall|i: int|
            0 <= i < opks@.len() ==> stored_prekey(
                Some(b64url_text((#[trigger] opks@[i])@)),
            ) == Ok::<Seq<u8>, MeshError>(opks@[i]@),
        signature_holds(ed_seed@, x25519_public(spk_priv@)),
        opks@.len() < 0xffff_ffff ==> publishes_by_number(
            r.body@,
            text_members(r.opk_files@),
            opks@.len(),
        ),
{
    broadcast use law_b64_reads_back;

    let mut opk_files: Vec<(String, String)> = Vec::new();
    let mut items: Vec<(i64, String)> = Vec::new();
    let mut i: usize = 0;
    while i < opks.len()
        invariant
            i <= opks@.len() <= u32::MAX,
            opk_files@.len() == i,
            items@.len() == i,
            forall|k: int|
                0 <= k < i ==> #[trigger] text_members(opk_files@)[k] == opk_entries(opks@)[k],
            forall|k: int| 0 <= k < i ==> #[trigger] list_items(items@)[k] == opk_items(opks@)[k],
        decreases opks.len() - i,
    {
        let ghost files_before = opk_files@;
        let ghost items_before = items@;
        let private: [u8; 32] = opks[i];
        let public = x25519_public_key(&private);
        opk_files.push((opk_path(i as u32), b64_encode(private.as_slice())));
        items.push((i as i64, b64_encode(public.as_slice())));
        assert forall|k: int| 0 <= k < i + 1 implies #[trigger] text_members(opk_files@)[k]
            == opk_entries(opks@)[k] by {
            if k < i {
                assert(text_members(files_before)[k] == opk_entries(opks@)[k]);
            }
        }
        assert forall|k: int| 0 <= k < i + 1 implies #[trigger] list_items(items@)[k]
            == opk_items(opks@)[k] by {
            if k < i {
                assert(list_items(items_before)[k] == opk_items(opks@)[k]);
            }
        }
        i = i + 1;
    }
    assert(text_members(opk_files@) =~= opk_entries(opks@));
    assert(list_items(items@) =~= opk_items(opks@));
    let spk_text = b64_encode(spk_priv.as_slice());
    let dir = prekeys_dir();
    let mut spk_files: Vec<(String, String)> = Vec::new();
    spk_files.push((spk_path(spk_id), spk_text.clone()));
    spk_files.push((join(dir.as_str(), "spk_priv"), spk_text));
    spk_files.push((join(dir.as_str(), "spk_id"), decimal_text(spk_id as u64)));
    spk_files.push((join(dir.as_str(), "spk_created_at"), decimal_int_text(now)));
    assert(text_members(spk_files@) =~= spk_entries(spk_priv@, spk_id, now));
    let spk_pub = x25519_public_key(spk_priv);
    let spk_sig = ed25519_sign(ed_seed, spk_pub.as_slice());
    let mut texts: Vec<(String, String)> = Vec::new();
    texts.push(("x_id_pub".to_owned(), b64_encode(x_pub.as_slice())));
    texts.push(("x_id_sig".to_owned(), trim(x_id_sig).to_owned()));
    texts.push(("spk_pub".to_owned(), b64_encode(spk_pub.as_slice())));
    texts.push(("spk_sig".to_owned(), b64_encode_standard(spk_sig.as_slice())));
    let mut numbers: Vec<(String, i64)> = Vec::new();
    numbers.push(("spk_id".to_owned(), spk_id as i64));
    assert(text_members(texts@) =~= seq![
        ("x_id_pub"@, b64url_text(x_pub@)),
        ("x_id_sig"@, trimmed(x_id_sig@)),
        ("spk_pub"@, b64url_text(x25519_public(spk_priv@))),
        ("spk_sig"@, b64std_text(ed25519_signature(ed_seed@, x25519_public(spk_priv@)))),
    ]);
    assert(number_members(numbers@) =~= seq![("spk_id"@, spk_id as int)]);
    proof {
        lemma_publication_names(text_members(texts@), number_members(numbers@));
    }
    let body = write_object_with_list(&texts, &numbers, "opks", &items, "id", "pub");
    proof {
        assert(texts@[0].0@ == "x_id_pub"@ && texts@[1].0@ == "x_id_sig"@);
        assert(texts@[2].0@ == "spk_pub"@ && texts@[3].0@ == "spk_sig"@);
        assert(numbers@[0].0@ == "spk_id"@);
        let publics = items@.map_values(|p: (i64, String)| Some(p.1@));
        assert forall|i: int| 0 <= i < opks@.len() implies publics[i] == Some(
            b64url_text(x25519_public(opks@[i]@)),
        ) by {
            assert(list_items(items@)[i] == opk_items(opks@)[i]);
        }
        assert(publics =~= Seq::new(
            opks@.len(),
            |i: int| Some(b64url_text(x25519_public(opks@[i]@))),
        ));
    }
    proof {
        if opks@.len() < 0xffff_ffff {
            law_numbers_name_files(opks@);
            assert(body@ == json_object_with_list(
                text_members(texts@),
                number_members(numbers@),
                "opks"@,
                opk_items(opks@),
                "id"@,
                "pub"@,
            ));
            assert(publishes_by_number(body@, text_members(opk_files@), opks@.len()));
        }
    }
    Publication { opk_files, spk_files, body }
}

/// The number of a signed prekey, from four bytes.
pub open spec fn spk_number(b: Seq<u8>) -> u32 {
    (((b[0] as nat) + (b[1] as nat) * 0x100 + (b[2] as nat) * 0x10000 + (b[3] as nat) * 0x1000000)
        % SPK_ID_LIMIT as nat) as u32
}

/// The number of a signed prekey, from four bytes.
pub fn number_from(b: &[u8; 4]) -> (r: u32)
    ensures
        r == spk_number(b@),
        r < SPK_ID_LIMIT,
{
    let whole: u32 = (b[0] as u32) + (b[1] as u32) * 0x100 + (b[2] as u32) * 0x10000 + (
    b[3] as u32) * 0x1000000;
    whole % SPK_ID_LIMIT
}

/// The number of a signed prekey is that of the four bytes, the first counting least, up to a
/// million.
pub proof fn law_spk_number(b: Seq<u8>)
    requires
        b.len() == 4,
    ensures
        spk_number(b) < 1_000_000,
        spk_number(b) == (b[0] + 256 * (b[1] + 256 * (b[2] + 256 * b[3]))) % 1_000_000,
{
}

fn draw_keys(count: usize) -> (r: Result<Vec<[u8; 32]>, MeshError>)
    ensures
        r matches Ok(keys) ==> keys@.len() == count,
        r matches Err(e) ==> e == MeshError::NoRandomness,
{
    let mut keys: Vec<[u8; 32]> = Vec::new();
    while keys.len() < count
        invariant
            keys@.len() <= count,
        decreases count - keys.len(),
    {
        match random_array::<32>() {
            Some(key) => {
                keys.push(key);
            },
            None => {
                return Err(MeshError::NoRandomness);
            },
        }
    }
    Ok(keys)
}

/// Builds a publication from a signed prekey and one-time prekeys that are drawn here, a hundred of
/// them.
pub fn draw_publication(ed_seed: &[u8; 32], x_pub: &[u8; 32], x_id_sig: &str, now: i64) -> (r:
    Result<Publication, MeshError>)
    ensures
        r matches Ok(p) ==> exists|spk_priv: Seq<u8>, spk_id: u32, opks: Seq<[u8; 32]>|
            {
                &&& spk_priv.len() == KEY_LEN
                &&& spk_id < SPK_ID_LIMIT
                &&& opks.len() == OPK_COUNT
                &&& p.body@ == #[trigger] publication_body(
                    ed_seed@,
                    x_pub@,
                    x_id_sig@,
                    spk_priv,
                    spk_id,
                    opks,
                )
                &&& publication_readable(
                    encode_utf8(p.body@),
                    ed_seed@,
                    x_pub@,
                    x_id_sig@,
                    spk_priv,
                    spk_id,
                    opks,
                )
                &&& text_members(p.opk_files@) == opk_entries(opks)
                &&& text_members(p.spk_files@) == spk_entries(spk_priv, spk_id, now)
                &&& signature_holds(ed_seed@, x25519_public(spk_priv))
            },
        r matches Ok(p) ==> publishes_by_number(p.body@, text_members(p.opk_files@), 100),
        r matches Err(e) ==> e == MeshError::NoRandomness,
{
    match (random_array::<32>(), random_array::<4>()) {
        (Some(spk_priv), Some(id_bytes)) => {
            let opks = draw_keys(OPK_COUNT)?;
            let spk_id: u32 = number_from(&id_bytes);
            Ok(build_publication(ed_seed, x_pub, x_id_sig, &spk_priv, spk_id, &opks, now))
        },
        _ => Err(MeshError::NoRandomness),
    }
}

/// The bundle that a server hands out after a publication, with the one-time prekey `opk_id` if
/// there is one left.
pub open spec fn handed_out(
    ed_seed: Seq<u8>,
    x_priv: Seq<u8>,
    spk_priv: Seq<u8>,
    spk_id: u32,
    opk: Option<(u32, Seq<u8>)>,
) -> BundleView {
    let x_pub = x25519_public(x_priv);
    let spk_pub = x25519_public(spk_priv);
    BundleView {
        x_id_pub: Some(b64url_text(x_pub)),
        x_id_sig: Some(b64url_text(ed25519_signature(ed_seed, x_pub))),
        spk_pub: Some(b64url_text(spk_pub)),
        spk_sig: Some(b64std_text(ed25519_signature(ed_seed, spk_pub))),
        spk_id: Some(spk_id as u64),
        opk_pub: match opk {
            Some(o) => Some(b64url_text(x25519_public(o.1))),
            None => None,
        },
        opk_id: match opk {
            Some(o) => Some(o.0 as u64),
            None => None,
        },
    }
}

/// What is published is what peers are handed: the members of the request are those of the bundle,
/// if the identity key and its signature are those of the identity's files, and the one-time
/// prekeys are the public keys of the private ones, in their order.
pub proof fn law_publication_is_handed_out(
    body: Seq<u8>,
    ed_seed: Seq<u8>,
    x_priv: Seq<u8>,
    x_id_sig: Seq<char>,
    spk_priv: Seq<u8>,
    spk_id: u32,
    opks: Seq<[u8; 32]>,
    opk: Option<(u32, Seq<u8>)>,
)
    requires
        publication_readable(
            body,
            ed_seed,
            x25519_public(x_priv),
            x_id_sig,
            spk_priv,
            spk_id,
            opks,
        ),
        trimmed(x_id_sig) == b64url_text(ed25519_signature(ed_seed, x25519_public(x_priv))),
    ensures
        ({
            let b = handed_out(ed_seed, x_priv, spk_priv, spk_id, opk);
            &&& json_text(body, "x_id_pub"@) == b.x_id_pub
            &&& json_text(body, "x_id_sig"@) == b.x_id_sig
            &&& json_text(body, "spk_pub"@) == b.spk_pub
            &&& json_text(body, "spk_sig"@) == b.spk_sig
            &&& json_number(body, "spk_id"@) == b.spk_id
        }),
        json_text(body, "x_id_pub"@) matches Some(text) && b64_bytes(text) == Some(
            x25519_public(x_priv),
        ),
        json_text(body, "spk_pub"@) matches Some(text) && b64_bytes(text) == Some(
            x25519_public(spk_priv),
        ),
        json_text(body, "spk_sig"@) matches Some(text) && b64_bytes(text) == Some(
            ed25519_signature(ed_seed, x25519_public(spk_priv)),
        ),
        json_number(body, "spk_id"@) == Some(spk_id as u64),
        json_list(body, "opks"@, "pub"@) matches Some(list) && list.len() == opks.len() && forall|
            i: int,
        |
            0 <= i < opks.len() ==> ((#[trigger] list[i]) matches Some(text) && b64_bytes(text)
                == Some(x25519_public(opks[i]@))),
{
    broadcast use {law_b64_reads_back, law_b64_standard_reads_back};

}

/// A peer who asks for the bundle of a mailbox takes the published keys out of it. The premises on
/// the verifying key and the two signatures are what `make_identity` and `build_publication` give;
/// left out are signatures whose first half is the neutral point, which nobody accepts.
pub proof fn law_published_keys_taken(
    ed_seed: Seq<u8>,
    x_priv: Seq<u8>,
    spk_priv: Seq<u8>,
    spk_id: u32,
    opk: Option<(u32, Seq<u8>)>,
)
    requires
        ed25519_public(ed_seed).len() == KEY_LEN,
        x25519_public(x_priv).len() == KEY_LEN,
        x25519_public(spk_priv).len() == KEY_LEN,
        ed25519_signature(ed_seed, x25519_public(x_priv)).len() == 64,
        ed25519_signature(ed_seed, x25519_public(spk_priv)).len() == 64,
        opk matches Some(o) ==> x25519_public(o.1).len() == KEY_LEN,
        ed25519_is_key(ed25519_public(ed_seed)),
        signature_holds(ed_seed, x25519_public(x_priv)),
        signature_holds(ed_seed, x25519_public(spk_priv)),
        ed25519_signature(ed_seed, x25519_public(x_priv)).take(32) != neutral_point(),
        ed25519_signature(ed_seed, x25519_public(spk_priv)).take(32) != neutral_point(),
    ensures
        checked_keys(
            hex_text(ed25519_public(ed_seed)),
            handed_out(ed_seed, x_priv, spk_priv, spk_id, opk),
        ) == Ok::<PeerKeysView, MeshError>(
            published_keys(
                x_priv,
                spk_priv,
                match opk {
                    Some(o) => Some(o.1),
                    None => None,
                },
                spk_id,
                match opk {
                    Some(o) => o.0,
                    None => OPK_NONE,
                },
            ),
        ),
{
    broadcast use {law_b64_reads_back, law_b64_standard_reads_back};

    lemma_hex_solid(ed25519_public(ed_seed));
    law_fingerprint_round_trip(ed25519_public(ed_seed));
}

} // verus!
