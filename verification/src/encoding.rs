//! Base64 in either alphabet, and fingerprints.
use vstd::prelude::*;
use vstd::string::*;
use vstd::utf8::encode_utf8;

use crate::bytes::{exact32, res_view, KEY_LEN};
use crate::error::MeshError;
use crate::primitives::{
    b64std_decode, b64std_encode, b64url_decode, b64url_encode, hex_encode,
};
use crate::text::trim;

verus! {

use crate::b64::{
    b64_text,
    b64std_bytes,
    b64std_text,
    b64url_bytes,
    b64url_text,
    is_b64_char,
    law_base64_round_trip,
    lemma_b64_chars,
};
use crate::primitives::{hex_digit, hex_text};
use crate::text::{is_space, lemma_trimmed_solid, lower_char, lowered, trimmed};

/// What a base64 text decodes to once white space around it is gone: the URL-safe alphabet is tried
/// first, then the standard one.
pub open spec fn b64_bytes(text: Seq<char>) -> Option<Seq<u8>> {
    match b64url_bytes(trimmed(text)) {
        Some(bytes) => Some(bytes),
        None => b64std_bytes(trimmed(text)),
    }
}

/// What decoding a base64 text gives.
pub open spec fn decoded(text: Seq<char>) -> Result<Seq<u8>, MeshError> {
    match b64_bytes(text) {
        Some(bytes) => Ok(bytes),
        None => Err(MeshError::BadBase64),
    }
}

/// What decoding a base64 text gives where a key is wanted, with the error for a wrong length.
pub open spec fn decoded_key(text: Seq<char>, wrong_length: MeshError) -> Result<
    Seq<u8>,
    MeshError,
> {
    match decoded(text) {
        Ok(bytes) => if bytes.len() == KEY_LEN {
            Ok(bytes)
        } else {
            Err(wrong_length)
        },
        Err(e) => Err(e),
    }
}

proof fn lemma_b64_solid(bytes: Seq<u8>, url: bool)
    ensures
        trimmed(b64_text(bytes, url)) == b64_text(bytes, url),
{
    let text = b64_text(bytes, url);
    lemma_b64_chars(bytes, url);
    assert forall|i: int| 0 <= i < text.len() implies !is_space(#[trigger] text[i]) by {
        assert(is_b64_char(text[i]));
    }
    lemma_trimmed_solid(text);
}

/// Bytes are read back from their URL-safe base64 text.
pub broadcast proof fn law_b64_reads_back(bytes: Seq<u8>)
    ensures
        #[trigger] b64_bytes(b64url_text(bytes)) == Some(bytes),
{
    lemma_b64_solid(bytes, true);
    law_base64_round_trip(bytes);
}

/// Bytes are read back from their standard base64 text.
pub broadcast proof fn law_b64_standard_reads_back(bytes: Seq<u8>)
    ensures
        #[trigger] b64_bytes(b64std_text(bytes)) == Some(bytes),
{
    lemma_b64_solid(bytes, false);
    law_base64_round_trip(bytes);
}

/// Decodes base64 text.
pub fn b64_decode(text: &str) -> (r: Result<Vec<u8>, MeshError>)
    ensures
        res_view(r) == decoded(text@),
{
    let solid = trim(text);
    match b64url_decode(solid) {
        Some(bytes) => {
            proof {
                law_base64_round_trip(bytes@);
            }
            Ok(bytes)
        },
        None => match b64std_decode(solid) {
            Some(bytes) => {
                proof {
                    law_base64_round_trip(bytes@);
                }
                Ok(bytes)
            },
            None => Err(MeshError::BadBase64),
        },
    }
}

/// Decodes base64 text where a key is wanted, with the error for a wrong length.
pub fn b64_decode_key(text: &str, wrong_length: MeshError) -> (r: Result<[u8; 32], MeshError>)
    ensures
        res_view(r) == decoded_key(text@, wrong_length),
{
    let bytes = b64_decode(text)?;
    match exact32(bytes.as_slice()) {
        Some(key) => Ok(key),
        None => Err(wrong_length),
    }
}

/// Encodes bytes as URL-safe base64 without padding; `b64_decode` gives them back.
pub fn b64_encode(bytes: &[u8]) -> (r: String)
    requires
        bytes@.len() <= usize::MAX / 4,
    ensures
        r@ == b64url_text(bytes@),
        b64_bytes(r@) == Some(bytes@),
{
    broadcast use law_b64_reads_back;

    b64url_encode(bytes)
}

/// Encodes bytes as standard base64 with padding; `b64_decode` gives them back.
pub fn b64_encode_standard(bytes: &[u8]) -> (r: String)
    requires
        bytes@.len() <= usize::MAX / 4,
    ensures
        r@ == b64std_text(bytes@),
        b64_bytes(r@) == Some(bytes@),
{
    broadcast use law_b64_standard_reads_back;

    b64std_encode(bytes)
}

// ---------------------------------------------------------------- fingerprints

/// The value of one hexadecimal digit in either case.
pub open spec fn hex_value(c: u8) -> Option<u8> {
    if 48 <= c <= 57 {
        Some((c - 48) as u8)
    } else if 65 <= c <= 70 {
        Some((c - 55) as u8)
    } else if 97 <= c <= 102 {
        Some((c - 87) as u8)
    } else {
        None
    }
}

/// The value of two characters read as one hexadecimal number.
pub open spec fn hex_pair(a: u8, b: u8) -> Option<u8> {
    match (hex_value(a), hex_value(b)) {
        (Some(high), Some(low)) => Some((high * 16 + low) as u8),
        _ => None,
    }
}

/// The value of the `i`-th pair of characters.
pub open spec fn hex_pair_at(text: Seq<u8>, i: int) -> Option<u8> {
    hex_pair(text[2 * i], text[2 * i + 1])
}

/// The 32 bytes that a fingerprint stands for.
pub open spec fn fp_bytes(fp: Seq<char>) -> Result<Seq<u8>, MeshError> {
    let text = encode_utf8(fp);
    if text.len() != 64 {
        Err(MeshError::FingerprintLength)
    } else if forall|i: int| 0 <= i < 32 ==> (#[trigger] hex_pair_at(text, i)) is Some {
        Ok(Seq::new(32, |i: int| hex_pair_at(text, i)->0))
    } else {
        Err(MeshError::BadHex)
    }
}

fn digit_value(c: u8) -> (r: Option<u8>)
    ensures
        r == hex_value(c),
{
    if 48 <= c && c <= 57 {
        Some(c - 48)
    } else if 65 <= c && c <= 70 {
        Some(c - 55)
    } else if 97 <= c && c <= 102 {
        Some(c - 87)
    } else {
        None
    }
}

fn pair_value(a: u8, b: u8) -> (r: Option<u8>)
    ensures
        r == hex_pair(a, b),
{
    match (digit_value(a), digit_value(b)) {
        (Some(high), Some(low)) => Some(high * 16 + low),
        _ => None,
    }
}

/// Reads a fingerprint of 64 hexadecimal digits.
pub fn fp_to_bytes(fp: &str) -> (r: Result<[u8; 32], MeshError>)
    ensures
        res_view(r) == fp_bytes(fp@),
{
    let text = fp.as_bytes();
    if text.len() != 64 {
        return Err(MeshError::FingerprintLength);
    }
    let mut out: [u8; 32] = [0u8;32];
    let mut i: usize = 0;
    while i < 32
        invariant
            i <= 32,
            text@.len() == 64,
            text@ == encode_utf8(fp@),
            forall|k: int|
                0 <= k < i ==> (#[trigger] hex_pair_at(text@, k)) is Some && out@[k] == hex_pair_at(
                    text@,
                    k,
                )->0,
        decreases 32 - i,
    {
        match pair_value(text[2 * i], text[2 * i + 1]) {
            Some(value) => {
                out[i] = value;
            },
            None => {
                assert(hex_pair_at(text@, i as int) is None);
                return Err(MeshError::BadHex);
            },
        }
        assert(hex_pair_at(text@, i as int) == Some(out@[i as int]));
        i = i + 1;
    }
    assert(out@ =~= Seq::new(32, |k: int| hex_pair_at(text@, k)->0));
    Ok(out)
}

/// Writes a fingerprint: 64 lower-case hexadecimal digits.
pub fn fp_from_bytes(b: &[u8; 32]) -> (r: String)
    ensures
        r@ == hex_text(b@),
{
    hex_encode(b)
}

/// The hexadecimal text of any bytes.
pub fn hex_of(bytes: &[u8]) -> (r: String)
    requires
        bytes@.len() <= usize::MAX / 4,
    ensures
        r@ == hex_text(bytes@),
{
    hex_encode(bytes)
}

/// Hexadecimal text is ASCII, and so takes one byte for each character.
pub proof fn lemma_hex_text_bytes(bytes: Seq<u8>)
    ensures
        encode_utf8(hex_text(bytes)) == Seq::new(
            2 * bytes.len(),
            |i: int| hex_text(bytes)[i] as u8,
        ),
{
    let text = hex_text(bytes);
    assert forall|i: int| 0 <= i < text.len() implies 0 <= (#[trigger] text[i]) as u32 && (
    text[i] as u32) < 128 by {}
    vstd::utf8::is_ascii_chars_encode_utf8(text);
}

/// The value of a hexadecimal digit is that of its character in lower case, and a character has one
/// where it is a digit or a letter up to f in either case.
proof fn lemma_hex_value(c: char)
    requires
        (c as u32) < 128,
    ensures
        hex_value(c as u8) == hex_value(lower_char(c) as u8),
        hex_value(c as u8) matches Some(v) ==> v < 16 && lower_char(c) == hex_digit(v as nat),
        forall|d: nat| d < 16 && lower_char(c) == #[trigger] hex_digit(d) ==> hex_value(c as u8)
            == Some(d as u8),
{
}

/// Lower case changes neither how many bytes a text takes nor which of them are hexadecimal digits.
proof fn lemma_lowered_bytes(s: Seq<char>)
    ensures
        encode_utf8(lowered(s)).len() == encode_utf8(s).len(),
        forall|i: int|
            0 <= i < encode_utf8(s).len() ==> hex_value(#[trigger] encode_utf8(lowered(s))[i])
                == hex_value(encode_utf8(s)[i]),
    decreases s.len(),
{
    let low = lowered(s);
    if s.len() > 0 {
        let c = s[0];
        let rest = s.drop_first();
        lemma_lowered_bytes(rest);
        assert(low.drop_first() =~= lowered(rest));
        assert(low[0] == lower_char(c));
        let head = vstd::utf8::encode_scalar(c as u32);
        let low_head = vstd::utf8::encode_scalar(lower_char(c) as u32);
        assert(encode_utf8(s) == head + encode_utf8(rest));
        assert(encode_utf8(low) == low_head + encode_utf8(lowered(rest)));
        if lower_char(c) != c {
            lemma_hex_value(c);
            lemma_ascii_scalar(c);
            lemma_ascii_scalar(lower_char(c));
        }
        assert forall|i: int| 0 <= i < encode_utf8(s).len() implies hex_value(
            #[trigger] encode_utf8(low)[i],
        ) == hex_value(encode_utf8(s)[i]) by {
            if i >= head.len() {
                assert(encode_utf8(low)[i] == encode_utf8(lowered(rest))[i - head.len()]);
                assert(encode_utf8(s)[i] == encode_utf8(rest)[i - head.len()]);
            }
        }
    } else {
        assert(low =~= s);
    }
}

proof fn lemma_ascii_scalar(c: char)
    requires
        (c as u32) < 128,
    ensures
        vstd::utf8::encode_scalar(c as u32) == seq![c as u8],
{
    let one = seq![c];
    vstd::utf8::is_ascii_chars_encode_utf8(one);
    assert(one.drop_first() =~= Seq::empty());
    assert(encode_utf8(Seq::<char>::empty()) =~= Seq::empty());
    assert(encode_utf8(one) =~= vstd::utf8::encode_scalar(c as u32));
    assert(encode_utf8(one) =~= seq![c as u8]);
}

/// A fingerprint may be written in either case.
pub proof fn law_fingerprint_in_either_case(fp: Seq<char>)
    ensures
        fp_bytes(lowered(fp)) == fp_bytes(fp),
{
    let text = encode_utf8(fp);
    let low = encode_utf8(lowered(fp));
    lemma_lowered_bytes(fp);
    if text.len() == 64 {
        assert forall|i: int| 0 <= i < 32 implies #[trigger] hex_pair_at(low, i) == hex_pair_at(
            text,
            i,
        ) by {
            assert(hex_value(low[2 * i]) == hex_value(text[2 * i]));
            assert(hex_value(low[2 * i + 1]) == hex_value(text[2 * i + 1]));
        }
        assert forall|i: int| 0 <= i < 32 implies #[trigger] hex_pair_at(text, i) == hex_pair_at(
            low,
            i,
        ) by {}
        assert(Seq::new(32, |i: int| hex_pair_at(low, i)->0) =~= Seq::new(
            32,
            |i: int| hex_pair_at(text, i)->0,
        ));
    }
}

/// A text whose bytes are all ASCII is made of these bytes.
proof fn lemma_ascii_bytes(s: Seq<char>)
    requires
        forall|i: int| 0 <= i < encode_utf8(s).len() ==> #[trigger] encode_utf8(s)[i] < 128,
    ensures
        s.len() == encode_utf8(s).len(),
        forall|i: int|
            0 <= i < s.len() ==> (#[trigger] s[i] as u32) < 128 && s[i] as u8 == encode_utf8(s)[i],
{
    let bytes = encode_utf8(s);
    let t = Seq::new(bytes.len(), |i: int| bytes[i] as char);
    assert forall|i: int| 0 <= i < t.len() implies 0 <= (#[trigger] t[i]) as u32 && (t[i] as u32)
        < 128 by {
        assert(bytes[i] < 128);
    }
    vstd::utf8::is_ascii_chars_encode_utf8(t);
    assert forall|i: int| 0 <= i < bytes.len() implies #[trigger] encode_utf8(t)[i] == bytes[i] by {
        assert(t[i] == bytes[i] as char);
    }
    assert(encode_utf8(t) =~= bytes);
    vstd::utf8::encode_utf8_decode_utf8(s);
    vstd::utf8::encode_utf8_decode_utf8(t);
    assert(s == t);
}

/// A fingerprint stands for the 32 bytes whose hexadecimal text it is, in either case, and nothing
/// else is a fingerprint. The length is looked at first.
pub proof fn law_fingerprint_is_hexadecimal(fp: Seq<char>, b: Seq<u8>)
    ensures
        fp_bytes(fp) == Ok::<Seq<u8>, MeshError>(b) <==> b.len() == 32 && hex_text(b) == lowered(
            fp,
        ),
        fp_bytes(fp) == Err::<Seq<u8>, MeshError>(MeshError::FingerprintLength) <==> encode_utf8(
            fp,
        ).len() != 64,
        fp_bytes(fp) matches Err(e) ==> e == MeshError::FingerprintLength || e == MeshError::BadHex,
{
    law_fingerprint_in_either_case(fp);
    if b.len() == 32 && hex_text(b) == lowered(fp) {
        law_fingerprint_round_trip(b);
    }
    if fp_bytes(fp) == Ok::<Seq<u8>, MeshError>(b) {
        let text = encode_utf8(fp);
        assert forall|k: int| 0 <= k < text.len() implies (#[trigger] text[k]) < 128 && hex_value(
            text[k],
        ) is Some by {
            assert(hex_pair_at(text, k / 2) is Some);
        }
        lemma_ascii_bytes(fp);
        assert forall|k: int| 0 <= k < 64 implies #[trigger] lowered(fp)[k] == hex_text(b)[k] by {
            let i = k / 2;
            assert(hex_pair_at(text, i) == Some(b[i]));
            assert(fp[2 * i] as u8 == text[2 * i]);
            assert(fp[2 * i + 1] as u8 == text[2 * i + 1]);
            lemma_hex_value(fp[2 * i]);
            lemma_hex_value(fp[2 * i + 1]);
            let high = hex_value(text[2 * i])->0;
            let low = hex_value(text[2 * i + 1])->0;
            assert(hex_value(text[2 * i]) is Some);
            assert(hex_value(text[2 * i + 1]) is Some);
            assert(b[i] == high * 16 + low);
            assert(b[i] as nat / 16 == high as nat && b[i] as nat % 16 == low as nat);
        }
        assert(lowered(fp) =~= hex_text(b));
    }
}

/// Text decodes only to bytes that it is the base64 of, in one alphabet or the other, once white
/// space around it is gone; and all such text decodes.
pub proof fn law_base64_texts(text: Seq<char>, bytes: Seq<u8>)
    ensures
        b64_bytes(text) == Some(bytes) <==> trimmed(text) == b64url_text(bytes) || trimmed(text)
            == b64std_text(bytes),
        decoded(text) == Ok::<Seq<u8>, MeshError>(bytes) <==> b64_bytes(text) == Some(bytes),
        decoded(text) matches Err(e) ==> e == MeshError::BadBase64,
{
    law_base64_round_trip(bytes);
    if let Some(b) = b64url_bytes(trimmed(text)) {
        law_base64_round_trip(b);
    }
    if let Some(b) = b64std_bytes(trimmed(text)) {
        law_base64_round_trip(b);
    }
}

/// Where a key is wanted, 32 bytes are one, and any other number of them is refused.
pub proof fn law_keys_are_decoded(text: Seq<char>, wrong_length: MeshError, key: Seq<u8>)
    ensures
        decoded_key(text, wrong_length) == Ok::<Seq<u8>, MeshError>(key) <==> key.len() == 32
            && b64_bytes(text) == Some(key),
        (b64_bytes(text) matches Some(bytes) && bytes.len() != 32) ==> decoded_key(
            text,
            wrong_length,
        ) == Err::<Seq<u8>, MeshError>(wrong_length),
        b64_bytes(text) is None ==> decoded_key(text, wrong_length) == Err::<Seq<u8>, MeshError>(
            MeshError::BadBase64,
        ),
{
}

/// A fingerprint that was written is read back.
pub proof fn law_fingerprint_round_trip(b: Seq<u8>)
    requires
        b.len() == KEY_LEN,
    ensures
        fp_bytes(hex_text(b)) == Ok::<Seq<u8>, MeshError>(b),
{
    lemma_hex_text_bytes(b);
    let text = encode_utf8(hex_text(b));
    assert forall|i: int| 0 <= i < 32 implies (#[trigger] hex_pair_at(text, i)) == Some(b[i]) by {
        assert(text[2 * i] == hex_digit(b[i] as nat / 16) as u8);
        assert(text[2 * i + 1] == hex_digit(b[i] as nat % 16) as u8);
    }
    assert(Seq::new(32, |i: int| hex_pair_at(text, i)->0) =~= b);
}

} // verus!
