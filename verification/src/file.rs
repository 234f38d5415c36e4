//! Messages that stand alone: files, cut into chunks, and texts without a session.
use vstd::prelude::*;
use vstd::slice::*;
use vstd::string::*;

use crate::bytes::{
    push_be16, push_bytes, push_le64, read_array12, read_array24, read_array32,
    read_be16, res_view, same_text, KEY_LEN,
};
use crate::encoding::{b64_decode, b64_encode, fp_to_bytes, hex_of};
use crate::envelope::{drop_nonce, InitKeys, LegacyMessage, NONCE_LEN};
use crate::error::MeshError;
use crate::json::{parses, read_number, read_text, write_object};
use crate::kdf::{cdec, cenc, hkdf_derive_salt, xdec, xenc};
use crate::primitives::{blake2b_digest, blake2b_digest32, random_array, wipe, wipe_key, TAG_LEN};

verus! {

use vstd::utf8::encode_utf8;
use crate::bytes::{
    be16,
    be16_value,
    field,
    law_be16,
    law_le64,
    law_numbers_are_read,
    le64,
    le64_value,
    lemma_be16,
};
use crate::b64::{b64url_text, lemma_b64_len};
use crate::encoding::{b64_bytes, decoded, fp_bytes, law_b64_reads_back};
use crate::envelope::{
    bare_wire,
    classified,
    law_bare_file_is_read,
    law_legacy_round_trip,
    legacy_wire,
    without_nonce,
    InboundView,
    InitKeysView,
    LegacyView,
};
use crate::json::{
    distinct_names,
    is_json,
    json_number,
    json_object,
    json_text,
    number_members,
    numbers_bound,
    text_members,
    texts_bound,
};
use crate::kdf::{copened, label, xopened, xsealed};
use crate::primitives::{blake2b_256, blake2b_512, chacha_seal, hex_text, hkdf_sha256, xchacha_seal};
use crate::text::lemma_utf8_len;

/// The plaintext bytes in one chunk of a file.
pub const CHUNK_SIZE: usize = 65519;

/// What one chunk takes on the wire besides its plaintext: its length and its tag.
pub const CHUNK_OVERHEAD: usize = 18;

/// What the header of a file takes at most, its name apart.
pub const HEADER_BASE: usize = 5000;

/// The longest name that a file is sure to be sent under, in bytes.
pub const NAME_LIMIT: usize = 10000;

/// The largest file: 128 MiB.
pub const MAX_FILE: usize = 134217728;

/// The largest message on the wire: 132 MiB.
pub const MAX_V3_BODY: usize = 138412032;

// ---------------------------------------------------------------- keys

/// The 64 bytes that the secret of a message that stands alone derives.
pub open spec fn message_okm(sk: Seq<u8>) -> Seq<u8> {
    hkdf_sha256(Some(sk), sk, label("mesh-v3-msg v1"), 64)
}

/// The key of the header.
pub open spec fn header_key(sk: Seq<u8>) -> Seq<u8> {
    message_okm(sk).subrange(0, 32)
}

/// The key of a text.
pub open spec fn text_key(sk: Seq<u8>) -> Seq<u8> {
    message_okm(sk).subrange(32, 64)
}

fn message_keys(sk: &[u8]) -> (r: ([u8; 32], [u8; 32]))
    ensures
        r.0@ == header_key(sk@),
        r.1@ == text_key(sk@),
{
    let mut okm = hkdf_derive_salt(sk, sk, "mesh-v3-msg v1".as_bytes(), 64).unwrap();
    let keys = (read_array32(okm.as_slice(), 0), read_array32(okm.as_slice(), 32));
    wipe(&mut okm);
    keys
}

/// The first half of a BLAKE2b digest.
pub open spec fn digest32(data: Seq<u8>) -> Seq<u8> {
    blake2b_512(data).subrange(0, 32)
}

fn half_digest(data: &[u8]) -> (r: Vec<u8>)
    ensures
        r@ == digest32(data@),
        r@.len() == 32,
{
    let full = blake2b_digest(data);
    slice_to_vec(slice_subrange(full.as_slice(), 0, 32))
}

// ---------------------------------------------------------------- chunks

/// The number of chunks of a file.
pub open spec fn chunk_count(len: nat) -> nat {
    (len + CHUNK_SIZE - 1) as nat / CHUNK_SIZE as nat
}

/// Where chunk `i` of a file starts; for the number of chunks, where the file ends.
pub open spec fn chunk_start(len: nat, i: nat) -> nat {
    if i * CHUNK_SIZE <= len {
        (i * CHUNK_SIZE) as nat
    } else {
        len
    }
}

/// Chunk `i` of a file.
pub open spec fn chunk(file: Seq<u8>, i: nat) -> Seq<u8> {
    file.subrange(chunk_start(file.len(), i) as int, chunk_start(file.len(), i + 1) as int)
}

/// The nonce of chunk `i`.
pub open spec fn chunk_nonce(base: Seq<u8>, i: u64) -> Seq<u8> {
    base.subrange(0, 4) + le64(i)
}

/// What chunk `i` of `count` is bound to: the header, its place, and whether it is the last one.
pub open spec fn chunk_ad(header_ct: Seq<u8>, i: u64, count: u64) -> Seq<u8> {
    digest32(header_ct) + le64(i) + seq![if i + 1 == count {
        1u8
    } else {
        0u8
    }]
}

/// The ciphertext of chunk `i`.
pub open spec fn chunk_ct(
    fk: Seq<u8>,
    base: Seq<u8>,
    header_ct: Seq<u8>,
    file: Seq<u8>,
    i: nat,
) -> Seq<u8> {
    chacha_seal(
        fk,
        chunk_nonce(base, i as u64),
        chunk(file, i),
        chunk_ad(header_ct, i as u64, chunk_count(file.len()) as u64),
    )
}

/// The first `count` chunks on the wire, each after its length.
pub open spec fn chunk_stream(
    fk: Seq<u8>,
    base: Seq<u8>,
    header_ct: Seq<u8>,
    file: Seq<u8>,
    count: nat,
) -> Seq<u8>
    decreases count,
{
    if count == 0 {
        Seq::empty()
    } else {
        let i = (count - 1) as nat;
        let ct = chunk_ct(fk, base, header_ct, file, i);
        chunk_stream(fk, base, header_ct, file, i) + be16(ct.len()) + ct
    }
}

/// Every one of the first `count` chunks is opened again, and is longer than its plaintext by the
/// tag.
pub open spec fn chunks_open(
    fk: Seq<u8>,
    base: Seq<u8>,
    header_ct: Seq<u8>,
    file: Seq<u8>,
    count: nat,
) -> bool {
    forall|i: nat|
        i < count ==> (#[trigger] chunk_ct(fk, base, header_ct, file, i)).len() == chunk(
            file,
            i,
        ).len() + TAG_LEN && copened(
            fk,
            chunk_nonce(base, i as u64),
            chunk_ct(fk, base, header_ct, file, i),
            chunk_ad(header_ct, i as u64, chunk_count(file.len()) as u64),
        ) == Some(chunk(file, i))
}

fn nonce_of(base: &[u8; 12], i: u64) -> (r: [u8; 12])
    ensures
        r@ == chunk_nonce(base@, i),
{
    let mut v: Vec<u8> = Vec::new();
    push_bytes(&mut v, slice_subrange(base.as_slice(), 0, 4));
    push_le64(&mut v, i);
    let r = read_array12(v.as_slice(), 0);
    assert(r@ =~= chunk_nonce(base@, i));
    r
}

fn ad_of(header_hash: &Vec<u8>, i: u64, last: bool) -> (r: Vec<u8>)
    ensures
        r@ == header_hash@ + le64(i) + seq![if last {
            1u8
        } else {
            0u8
        }],
{
    let mut ad: Vec<u8> = Vec::new();
    push_bytes(&mut ad, header_hash.as_slice());
    push_le64(&mut ad, i);
    let flag: u8 = if last {
        1
    } else {
        0
    };
    ad.push(flag);
    assert(ad@ =~= header_hash@ + le64(i) + seq![flag]);
    ad
}

fn count_chunks(len: usize) -> (r: usize)
    requires
        len <= MAX_FILE,
    ensures
        r == chunk_count(len as nat),
{
    (len + (CHUNK_SIZE - 1)) / CHUNK_SIZE
}

proof fn lemma_chunk_count(len: nat, i: nat)
    requires
        len <= MAX_FILE,
        i < chunk_count(len),
    ensures
        i * CHUNK_SIZE < len,
        chunk_start(len, i) == i * CHUNK_SIZE,
        chunk_start(len, i) < chunk_start(len, i + 1) <= chunk_start(len, i) + CHUNK_SIZE,
        chunk_count(len) <= 2049,
{
}

fn seal_chunks(fk: &[u8; 32], base: &[u8; 12], header_ct: &Vec<u8>, file: &[u8]) -> (r: Vec<u8>)
    requires
        file@.len() <= MAX_FILE,
    ensures
        r@ == chunk_stream(fk@, base@, header_ct@, file@, chunk_count(file@.len())),
        chunks_open(fk@, base@, header_ct@, file@, chunk_count(file@.len())),
        r@.len() == file@.len() + CHUNK_OVERHEAD * chunk_count(file@.len()),
{
    let header_hash = half_digest(header_ct.as_slice());
    let count: usize = count_chunks(file.len());
    let mut out: Vec<u8> = Vec::new();
    let mut i: usize = 0;
    while i < count
        invariant
            i <= count,
            file.len() <= MAX_FILE,
            count == chunk_count(file@.len()),
            header_hash@ == digest32(header_ct@),
            out@ == chunk_stream(fk@, base@, header_ct@, file@, i as nat),
            out@.len() == chunk_start(file@.len(), i as nat) + CHUNK_OVERHEAD * i,
            chunks_open(fk@, base@, header_ct@, file@, i as nat),
        decreases count - i,
    {
        proof {
            lemma_chunk_count(file@.len(), i as nat);
        }
        let from: usize = i * CHUNK_SIZE;
        let to: usize = if file.len() - from < CHUNK_SIZE {
            file.len()
        } else {
            from + CHUNK_SIZE
        };
        let piece = slice_subrange(file, from, to);
        assert(piece@ =~= chunk(file@, i as nat));
        let nonce = nonce_of(base, i as u64);
        let ad = ad_of(&header_hash, i as u64, i + 1 == count);
        assert(ad@ =~= chunk_ad(header_ct@, i as u64, count as u64));
        let ct = cenc(fk, &nonce, piece, ad.as_slice()).unwrap();
        assert(ct@ == chunk_ct(fk@, base@, header_ct@, file@, i as nat));
        push_be16(&mut out, ct.len());
        push_bytes(&mut out, ct.as_slice());
        assert(chunk_stream(fk@, base@, header_ct@, file@, (i + 1) as nat) == chunk_stream(
            fk@,
            base@,
            header_ct@,
            file@,
            i as nat,
        ) + be16(ct@.len()) + ct@);
        i = i + 1;
    }
    assert(chunk_start(file@.len(), count as nat) == file@.len());
    out
}

/// What reading chunks gave: whether all that was read was sound, how many chunks it was, and the
/// bytes in them.
pub ghost struct Unchunked {
    pub sound: bool,
    pub chunks: nat,
    pub bytes: Seq<u8>,
}

/// Reads the chunks from `cur` on, the next being number `idx` of `count`, after `acc`.
pub open spec fn unchunked(
    fk: Seq<u8>,
    base: Seq<u8>,
    header_ct: Seq<u8>,
    data: Seq<u8>,
    cur: int,
    idx: nat,
    count: u64,
    acc: Seq<u8>,
) -> Unchunked
    decreases data.len() - cur,
{
    if cur + 2 > data.len() || idx >= count {
        Unchunked { sound: true, chunks: idx, bytes: acc }
    } else {
        let clen = be16_value(field(data, cur, 2)) as int;
        if cur + 2 + clen > data.len() {
            Unchunked { sound: false, chunks: idx, bytes: acc }
        } else {
            match copened(
                fk,
                chunk_nonce(base, idx as u64),
                field(data, cur + 2, clen),
                chunk_ad(header_ct, idx as u64, count),
            ) {
                None => Unchunked { sound: false, chunks: idx, bytes: acc },
                Some(pt) => unchunked(
                    fk,
                    base,
                    header_ct,
                    data,
                    cur + 2 + clen,
                    idx + 1,
                    count,
                    acc + pt,
                ),
            }
        }
    }
}

/// How the chunks of a file are read, one after the other: a chunk whose length says more than is
/// left, or that does not open at its place, ends the reading as unsound; one that opens adds what
/// it holds; and the reading ends where all chunks are read or no length is left.
pub proof fn law_chunks_are_read_in_turn(
    fk: Seq<u8>,
    base: Seq<u8>,
    header_ct: Seq<u8>,
    data: Seq<u8>,
    cur: int,
    idx: nat,
    count: u64,
    acc: Seq<u8>,
)
    requires
        0 <= cur <= data.len(),
        idx <= count,
    ensures
        ({
            let here = unchunked(fk, base, header_ct, data, cur, idx, count, acc);
            let clen = data[cur] * 256 + data[cur + 1];
            let ct = data.subrange(cur + 2, cur + 2 + clen);
            let pt = copened(
                fk,
                chunk_nonce(base, idx as u64),
                ct,
                chunk_ad(header_ct, idx as u64, count),
            );
            &&& idx == count || cur + 2 > data.len() ==> here == (Unchunked {
                sound: true,
                chunks: idx,
                bytes: acc,
            })
            &&& idx < count && cur + 2 <= data.len() && cur + 2 + clen > data.len()
                ==> !here.sound && here.chunks == idx && here.bytes == acc
            &&& idx < count && cur + 2 + clen <= data.len() && cur + 2 <= data.len() ==> match pt {
                None => !here.sound && here.chunks == idx && here.bytes == acc,
                Some(part) => here == unchunked(
                    fk,
                    base,
                    header_ct,
                    data,
                    cur + 2 + clen,
                    idx + 1,
                    count,
                    acc + part,
                ),
            }
        }),
{
    if cur + 2 <= data.len() {
        assert(field(data, cur, 2)[0] == data[cur]);
        assert(field(data, cur, 2)[1] == data[cur + 1]);
        law_numbers_are_read(field(data, cur, 2));
    }
}

fn open_chunks(
    fk: &[u8; 32],
    base: &[u8; 12],
    header_ct: &Vec<u8>,
    data: &Vec<u8>,
    count: u64,
) -> (r: (bool, u64, Vec<u8>))
    ensures
        ({
            let u = unchunked(fk@, base@, header_ct@, data@, 0, 0, count, Seq::empty());
            r.0 == u.sound && r.1 == u.chunks && r.2@ == u.bytes
        }),
{
    let header_hash = half_digest(header_ct.as_slice());
    let mut bytes: Vec<u8> = Vec::new();
    let mut idx: u64 = 0;
    let mut cur: usize = 0;
    let ghost all = unchunked(fk@, base@, header_ct@, data@, 0, 0, count, Seq::empty());
    assert(bytes@ =~= Seq::empty());
    while data.len() - cur >= 2 && idx < count
        invariant
            cur <= data.len(),
            idx <= count,
            header_hash@ == digest32(header_ct@),
            all == unchunked(fk@, base@, header_ct@, data@, 0, 0, count, Seq::empty()),
            all == unchunked(
                fk@,
                base@,
                header_ct@,
                data@,
                cur as int,
                idx as nat,
                count,
                bytes@,
            ),
        decreases data.len() - cur,
    {
        let ghost at = cur as int;
        let clen: usize = read_be16(data.as_slice(), cur);
        cur = cur + 2;
        if data.len() - cur < clen {
            return (false, idx, bytes);
        }
        let ct = slice_subrange(data.as_slice(), cur, cur + clen);
        let nonce = nonce_of(base, idx);
        let ad = ad_of(&header_hash, idx, idx + 1 == count);
        assert(ct@ == field(data@, at + 2, clen as int));
        assert(ad@ =~= chunk_ad(header_ct@, idx, count));
        match cdec(fk, &nonce, ct, ad.as_slice()) {
            Ok(pt) => {
                push_bytes(&mut bytes, pt.as_slice());
            },
            Err(_) => {
                return (false, idx, bytes);
            },
        }
        cur = cur + clen;
        idx = idx + 1;
    }
    (true, idx, bytes)
}

proof fn lemma_stream_prefix(
    fk: Seq<u8>,
    base: Seq<u8>,
    header_ct: Seq<u8>,
    file: Seq<u8>,
    i: nat,
    count: nat,
)
    requires
        i <= count,
    ensures
        chunk_stream(fk, base, header_ct, file, i).len() <= chunk_stream(
            fk,
            base,
            header_ct,
            file,
            count,
        ).len(),
        chunk_stream(fk, base, header_ct, file, count).take(
            chunk_stream(fk, base, header_ct, file, i).len() as int,
        ) == chunk_stream(fk, base, header_ct, file, i),
    decreases count,
{
    let short = chunk_stream(fk, base, header_ct, file, i);
    let long = chunk_stream(fk, base, header_ct, file, count);
    if i < count {
        let before = chunk_stream(fk, base, header_ct, file, (count - 1) as nat);
        lemma_stream_prefix(fk, base, header_ct, file, i, (count - 1) as nat);
        assert(long.take(short.len() as int) =~= before.take(short.len() as int));
    } else {
        assert(long.take(short.len() as int) =~= short);
    }
}

/// Reading the chunks of a file, from chunk `i` on, gives the file.
proof fn lemma_stream_reads(
    fk: Seq<u8>,
    base: Seq<u8>,
    header_ct: Seq<u8>,
    file: Seq<u8>,
    i: nat,
)
    requires
        file.len() <= MAX_FILE,
        i <= chunk_count(file.len()),
        chunks_open(fk, base, header_ct, file, chunk_count(file.len())),
    ensures
        unchunked(
            fk,
            base,
            header_ct,
            chunk_stream(fk, base, header_ct, file, chunk_count(file.len())),
            chunk_stream(fk, base, header_ct, file, i).len() as int,
            i,
            chunk_count(file.len()) as u64,
            file.take(chunk_start(file.len(), i) as int),
        ) == (Unchunked { sound: true, chunks: chunk_count(file.len()), bytes: file }),
    decreases chunk_count(file.len()) - i,
{
    let count = chunk_count(file.len());
    let data = chunk_stream(fk, base, header_ct, file, count);
    let here = chunk_stream(fk, base, header_ct, file, i);
    if i == count {
        assert(chunk_start(file.len(), i) == file.len());
        assert(file.take(file.len() as int) =~= file);
    } else {
        lemma_chunk_count(file.len(), i);
        lemma_stream_reads(fk, base, header_ct, file, i + 1);
        lemma_stream_prefix(fk, base, header_ct, file, i + 1, count);
        let ct = chunk_ct(fk, base, header_ct, file, i);
        let next = chunk_stream(fk, base, header_ct, file, i + 1);
        let cur = here.len() as int;
        assert(ct.len() == chunk(file, i).len() + TAG_LEN);
        assert(ct.len() < 0x10000);
        lemma_be16(ct.len());
        assert(next == here + be16(ct.len()) + ct);
        assert(next.len() == cur + 2 + ct.len());
        assert(data.take(next.len() as int) == next);
        assert(field(next, cur, 2) =~= be16(ct.len()));
        assert(field(next, cur + 2, ct.len() as int) =~= ct);
        assert(field(data, cur, 2) =~= field(data.take(next.len() as int), cur, 2));
        assert(field(data, cur + 2, ct.len() as int) =~= field(
            data.take(next.len() as int),
            cur + 2,
            ct.len() as int,
        ));
        assert(file.take(chunk_start(file.len(), i) as int) + chunk(file, i) =~= file.take(
            chunk_start(file.len(), i + 1) as int,
        ));
    }
}

/// Reading the chunks of a file that is cut off, from chunk `i` on, falls short.
proof fn lemma_cut_stream_reads(
    fk: Seq<u8>,
    base: Seq<u8>,
    header_ct: Seq<u8>,
    file: Seq<u8>,
    i: nat,
    left: nat,
)
    requires
        file.len() <= MAX_FILE,
        i <= chunk_count(file.len()),
        chunks_open(fk, base, header_ct, file, chunk_count(file.len())),
        chunk_stream(fk, base, header_ct, file, i).len() <= left,
        left < chunk_stream(fk, base, header_ct, file, chunk_count(file.len())).len(),
    ensures
        ({
            let u = unchunked(
                fk,
                base,
                header_ct,
                chunk_stream(fk, base, header_ct, file, chunk_count(file.len())).take(left as int),
                chunk_stream(fk, base, header_ct, file, i).len() as int,
                i,
                chunk_count(file.len()) as u64,
                file.take(chunk_start(file.len(), i) as int),
            );
            !u.sound || u.chunks < chunk_count(file.len())
        }),
    decreases chunk_count(file.len()) - i,
{
    let count = chunk_count(file.len());
    let whole = chunk_stream(fk, base, header_ct, file, count);
    let data = whole.take(left as int);
    let here = chunk_stream(fk, base, header_ct, file, i);
    if i < count {
        lemma_chunk_count(file.len(), i);
        lemma_stream_prefix(fk, base, header_ct, file, i + 1, count);
        let ct = chunk_ct(fk, base, header_ct, file, i);
        let next = chunk_stream(fk, base, header_ct, file, i + 1);
        let cur = here.len() as int;
        assert(ct.len() == chunk(file, i).len() + TAG_LEN);
        lemma_be16(ct.len());
        assert(next == here + be16(ct.len()) + ct);
        assert(field(next, cur, 2) =~= be16(ct.len()));
        assert(field(next, cur + 2, ct.len() as int) =~= ct);
        if cur + 2 <= left {
            assert(field(data, cur, 2) =~= field(whole.take(next.len() as int), cur, 2));
            if next.len() <= left {
                assert(field(data, cur + 2, ct.len() as int) =~= field(
                    whole.take(next.len() as int),
                    cur + 2,
                    ct.len() as int,
                ));
                assert(file.take(chunk_start(file.len(), i) as int) + chunk(file, i) =~= file.take(
                    chunk_start(file.len(), i + 1) as int,
                ));
                lemma_cut_stream_reads(fk, base, header_ct, file, i + 1, left);
            }
        }
    }
}

proof fn lemma_le64_injective(a: u64, b: u64)
    requires
        le64(a) == le64(b),
    ensures
        a == b,
{
    let s = le64(a);
    let t = le64(b);
    assert(s[0] == t[0] && s[1] == t[1] && s[2] == t[2] && s[3] == t[3]);
    assert(s[4] == t[4] && s[5] == t[5] && s[6] == t[6] && s[7] == t[7]);
    assert(a == b) by (bit_vector)
        requires
            a % 0x100 == b % 0x100,
            a / 0x100 % 0x100 == b / 0x100 % 0x100,
            a / 0x10000 % 0x100 == b / 0x10000 % 0x100,
            a / 0x1000000 % 0x100 == b / 0x1000000 % 0x100,
            a / 0x100000000 % 0x100 == b / 0x100000000 % 0x100,
            a / 0x10000000000 % 0x100 == b / 0x10000000000 % 0x100,
            a / 0x1000000000000 % 0x100 == b / 0x1000000000000 % 0x100,
            a / 0x100000000000000 == b / 0x100000000000000,
    ;
}

/// No two chunks of a file share a nonce.
pub proof fn law_chunk_nonces_differ(base: Seq<u8>, i: u64, j: u64)
    requires
        base.len() == 12,
        i != j,
    ensures
        chunk_nonce(base, i) != chunk_nonce(base, j),
{
    if chunk_nonce(base, i) == chunk_nonce(base, j) {
        assert(chunk_nonce(base, i).skip(4) =~= le64(i));
        assert(chunk_nonce(base, j).skip(4) =~= le64(j));
        lemma_le64_injective(i, j);
    }
}

/// A file has as many chunks as it takes: the last one begins before its end.
pub proof fn law_chunk_count(len: nat)
    ensures
        chunk_count(len) * 65519 >= len,
        len > 0 ==> chunk_count(len) > 0 && (chunk_count(len) - 1) * 65519 < len,
        len == 0 ==> chunk_count(len) == 0,
{
}

/// Chunk `i` of a file holds the bytes from 65519 times `i` on: 65519 of them, or in the last chunk
/// as many as are left.
pub proof fn law_chunk_is_a_part_of_the_file(file: Seq<u8>, i: nat)
    requires
        i < chunk_count(file.len()),
    ensures
        chunk(file, i).len() == (if file.len() - i * 65519 < 65519 {
            file.len() - i * 65519
        } else {
            65519
        }),
        chunk(file, i).len() > 0,
        forall|k: int|
            0 <= k < chunk(file, i).len() ==> #[trigger] chunk(file, i)[k] == file[i * 65519 + k],
{
}

/// What a chunk is bound to: the first half of the hash of the header, its number in eight bytes,
/// and one byte that tells the last chunk. So no two places of a file bind alike.
pub proof fn law_chunk_binding(header_ct: Seq<u8>, i: u64, count: u64)
    requires
        blake2b_512(header_ct).len() == 64,
    ensures
        chunk_ad(header_ct, i, count).len() == 41,
        chunk_ad(header_ct, i, count).take(32) == blake2b_512(header_ct).take(32),
        le64_value(chunk_ad(header_ct, i, count).subrange(32, 40)) == i,
        chunk_ad(header_ct, i, count)[40] == 1 <==> i + 1 == count,
        chunk_ad(header_ct, i, count)[40] == 0 <==> i + 1 != count,
{
    let ad = chunk_ad(header_ct, i, count);
    assert(ad.take(32) =~= blake2b_512(header_ct).take(32));
    assert(ad.subrange(32, 40) =~= le64(i));
    law_le64(i);
}

/// The nonce of a chunk: the first four bytes that were drawn, and its number in eight bytes.
pub proof fn law_chunk_nonce(base: Seq<u8>, i: u64)
    requires
        base.len() == 12,
    ensures
        chunk_nonce(base, i).len() == 12,
        chunk_nonce(base, i).take(4) == base.take(4),
        le64_value(chunk_nonce(base, i).skip(4)) == i,
{
    let nonce = chunk_nonce(base, i);
    assert(nonce.take(4) =~= base.take(4));
    assert(nonce.skip(4) =~= le64(i));
    law_le64(i);
}

proof fn lemma_stream_len(
    fk: Seq<u8>,
    base: Seq<u8>,
    header_ct: Seq<u8>,
    file: Seq<u8>,
    i: nat,
)
    requires
        i < chunk_count(file.len()),
        chunks_open(fk, base, header_ct, file, chunk_count(file.len())),
    ensures
        chunk_stream(fk, base, header_ct, file, i).len() == i * 65537,
    decreases i,
{
    if i > 0 {
        let before = (i - 1) as nat;
        lemma_stream_len(fk, base, header_ct, file, before);
        law_chunk_is_a_part_of_the_file(file, before);
        assert(chunk_ct(fk, base, header_ct, file, before).len() == chunk(file, before).len()
            + TAG_LEN);
    }
}

/// Where a chunk stands on the wire: each full one takes 65537 bytes, of which the first two are
/// the length of its ciphertext; and the ciphertext is the part of the file under the file's key.
pub proof fn law_chunk_on_the_wire(
    fk: Seq<u8>,
    base: Seq<u8>,
    header_ct: Seq<u8>,
    file: Seq<u8>,
    i: nat,
)
    requires
        file.len() <= 128 * 1024 * 1024,
        base.len() == 12,
        i < chunk_count(file.len()),
        chunks_open(fk, base, header_ct, file, chunk_count(file.len())),
    ensures
        ({
            let wire = chunk_stream(fk, base, header_ct, file, chunk_count(file.len()));
            let at = (i * 65537) as int;
            let ct = chacha_seal(
                fk,
                base.take(4) + le64(i as u64),
                chunk(file, i),
                chunk_ad(header_ct, i as u64, chunk_count(file.len()) as u64),
            );
            &&& wire.len() >= at + 2 + ct.len()
            &&& wire[at] as nat * 256 + wire[at + 1] as nat == ct.len()
            &&& wire.subrange(at + 2, at + 2 + ct.len()) == ct
        }),
{
    let count = chunk_count(file.len());
    let wire = chunk_stream(fk, base, header_ct, file, count);
    let here = chunk_stream(fk, base, header_ct, file, i);
    let next = chunk_stream(fk, base, header_ct, file, i + 1);
    let ct = chunk_ct(fk, base, header_ct, file, i);
    lemma_stream_len(fk, base, header_ct, file, i);
    lemma_stream_prefix(fk, base, header_ct, file, i + 1, count);
    law_chunk_is_a_part_of_the_file(file, i);
    assert(base.subrange(0, 4) =~= base.take(4));
    assert(next == here + be16(ct.len()) + ct);
    assert(ct.len() < 0x10000);
    law_be16(ct.len());
    let at = here.len() as int;
    assert(wire.take(next.len() as int) == next);
    assert(wire[at] == next[at] && wire[at + 1] == next[at + 1]) by {
        assert(wire.take(next.len() as int)[at] == wire[at]);
        assert(wire.take(next.len() as int)[at + 1] == wire[at + 1]);
    }
    assert(next[at] == be16(ct.len())[0] && next[at + 1] == be16(ct.len())[1]);
    assert(wire.subrange(at + 2, at + 2 + ct.len()) =~= next.subrange(at + 2, at + 2 + ct.len()));
    assert(next.subrange(at + 2, at + 2 + ct.len()) =~= ct);
}

// ---------------------------------------------------------------- opening a message

/// What a message that stands alone turned out to be.
#[derive(Debug)]
pub enum Opened {
    /// Its header does not decrypt.
    HeaderFailed,
    /// A text that is cut off before its ciphertext.
    CutOff,
    /// A text that does not decrypt.
    BodyFailed,
    /// A text.
    Text(Vec<u8>),
    /// A file whose header is not JSON.
    NotJson,
    /// A file that is cut off, or in which a chunk does not decrypt.
    Incomplete {
        /// The chunks that were read.
        chunks: u64,
        /// The chunks that the header announces.
        expected_chunks: u64,
        /// The bytes that were read.
        size: u64,
        /// The bytes that the header announces.
        expected_size: u64,
    },
    /// A file whose hash is not the one in its header.
    HashMismatch,
    /// A file.
    File {
        /// Its name.
        name: String,
        /// Its contents.
        bytes: Vec<u8>,
    },
    /// Neither a text nor a file.
    Other,
}

/// What a message that stands alone turned out to be.
pub ghost enum OpenedView {
    HeaderFailed,
    CutOff,
    BodyFailed,
    Text(Seq<u8>),
    NotJson,
    Incomplete { chunks: u64, expected_chunks: u64, size: u64, expected_size: u64 },
    HashMismatch,
    File { name: Seq<char>, bytes: Seq<u8> },
    Other,
}

impl View for Opened {
    type V = OpenedView;

    open spec fn view(&self) -> OpenedView {
        match self {
            Opened::HeaderFailed => OpenedView::HeaderFailed,
            Opened::CutOff => OpenedView::CutOff,
            Opened::BodyFailed => OpenedView::BodyFailed,
            Opened::Text(pt) => OpenedView::Text(pt@),
            Opened::NotJson => OpenedView::NotJson,
            Opened::Incomplete { chunks, expected_chunks, size, expected_size } =>
                OpenedView::Incomplete {
                chunks: *chunks,
                expected_chunks: *expected_chunks,
                size: *size,
                expected_size: *expected_size,
            },
            Opened::HashMismatch => OpenedView::HashMismatch,
            Opened::File { name, bytes } => OpenedView::File { name: name@, bytes: bytes@ },
            Opened::Other => OpenedView::Other,
        }
    }
}

/// The text under a name in a JSON document, or another one where there is none.
pub open spec fn text_or(doc: Seq<u8>, name: Seq<char>, other: Seq<char>) -> Seq<char> {
    match json_text(doc, name) {
        Some(t) => t,
        None => other,
    }
}

/// The number under a name in a JSON document, or zero where there is none.
pub open spec fn number_or_zero(doc: Seq<u8>, name: Seq<char>) -> u64 {
    match json_number(doc, name) {
        Some(x) => x,
        None => 0,
    }
}

/// Opens a file, once its header is decrypted.
pub open spec fn opened_file(header: Seq<u8>, m: LegacyView) -> Result<OpenedView, MeshError> {
    let fk = decoded(text_or(header, "fk"@, ""@));
    let base = decoded(text_or(header, "base_nonce"@, ""@));
    let count = number_or_zero(header, "chunks"@);
    let size = number_or_zero(header, "size"@);
    if !is_json(header) {
        Ok(OpenedView::NotJson)
    } else if fk is Err || base is Err || fk->Ok_0.len() != KEY_LEN || base->Ok_0.len() != 12 {
        Err(MeshError::BadFileHeader)
    } else {
        let u = unchunked(
            fk->Ok_0,
            base->Ok_0,
            m.header_ct,
            m.rest,
            0,
            0,
            count,
            Seq::empty(),
        );
        if !u.sound || u.chunks != count || u.bytes.len() != size {
            Ok(
                OpenedView::Incomplete {
                    chunks: u.chunks as u64,
                    expected_chunks: count,
                    size: u.bytes.len() as u64,
                    expected_size: size,
                },
            )
        } else if hex_text(blake2b_256(u.bytes)) != text_or(header, "hash"@, ""@) {
            Ok(OpenedView::HashMismatch)
        } else {
            Ok(
                OpenedView::File {
                    name: text_or(header, "name"@, "file.bin"@),
                    bytes: u.bytes,
                },
            )
        }
    }
}

/// The header of a message that stands alone. Old messages were encrypted under a nonce of zeros,
/// which is tried where the nonce of the message does not do.
pub open spec fn opened_header(sk: Seq<u8>, m: LegacyView) -> Option<Seq<u8>> {
    match xopened(header_key(sk), m.header_nonce, m.header_ct, Seq::empty()) {
        Some(header) => Some(header),
        None => xopened(
            header_key(sk),
            Seq::new(NONCE_LEN as nat, |i: int| 0u8),
            m.header_ct,
            Seq::empty(),
        ),
    }
}

/// The header of a file that was read with a nonce which is none, and the file read without it.
pub open spec fn opened_bare(sk: Seq<u8>, m: LegacyView) -> Option<(Seq<u8>, LegacyView)> {
    match without_nonce(m) {
        None => None,
        Some(bare) => match xopened(
            header_key(sk),
            bare.header_nonce,
            bare.header_ct,
            Seq::empty(),
        ) {
            None => None,
            Some(header) => Some((header, bare)),
        },
    }
}

/// Opens a message that stands alone with the secret of its key agreement. A file whose header does
/// not open is read without the nonce of its header, and tried again.
pub open spec fn opened(sk: Seq<u8>, m: LegacyView) -> Result<OpenedView, MeshError> {
    match opened_header(sk, m) {
        None => if m.kind == 2 {
            match opened_bare(sk, m) {
                Some(t) => opened_file(t.0, t.1),
                None => Ok(OpenedView::HeaderFailed),
            }
        } else {
            Ok(OpenedView::HeaderFailed)
        },
        Some(header) => if m.kind == 1 {
            if m.rest.len() < NONCE_LEN {
                Ok(OpenedView::CutOff)
            } else {
                match xopened(
                    text_key(sk),
                    m.rest.take(NONCE_LEN as int),
                    m.rest.skip(NONCE_LEN as int),
                    m.header_ct,
                ) {
                    Some(pt) => Ok(OpenedView::Text(pt)),
                    None => Ok(OpenedView::BodyFailed),
                }
            }
        } else if m.kind == 2 {
            opened_file(header, m)
        } else {
            Ok(OpenedView::Other)
        },
    }
}

/// A file that was opened is what its header says: the size is right, and so is the hash.
pub proof fn law_opened_file_is_as_announced(
    header: Seq<u8>,
    m: LegacyView,
    name: Seq<char>,
    bytes: Seq<u8>,
)
    requires
        opened_file(header, m) == Ok::<OpenedView, MeshError>(OpenedView::File { name, bytes }),
    ensures
        is_json(header),
        json_text(header, "hash"@) matches Some(hash) ==> hash == hex_text(blake2b_256(bytes)),
        json_number(header, "size"@) matches Some(size) ==> size == bytes.len(),
        json_text(header, "hash"@) is None ==> hex_text(blake2b_256(bytes)) == ""@,
        json_number(header, "size"@) is None ==> bytes.len() == 0,
        json_text(header, "name"@) matches Some(given) ==> name == given,
        json_text(header, "name"@) is None ==> name == "file.bin"@,
{
}

/// What comes of a file whose header opens: no JSON, no usable key or nonce, less than is
/// announced, another hash, or the file; and which of them is told by the header and the chunks
/// alone.
pub proof fn law_what_becomes_of_a_file(
    header: Seq<u8>,
    m: LegacyView,
    fk: Seq<u8>,
    base: Seq<u8>,
    name: Seq<char>,
    hash: Seq<char>,
    count: u64,
    size: u64,
)
    requires
        is_json(header),
        json_text(header, "fk"@) == Some(b64url_text(fk)),
        json_text(header, "base_nonce"@) == Some(b64url_text(base)),
        json_text(header, "name"@) == Some(name),
        json_text(header, "hash"@) == Some(hash),
        json_number(header, "chunks"@) == Some(count),
        json_number(header, "size"@) == Some(size),
    ensures
        fk.len() != 32 || base.len() != 12 ==> opened_file(header, m) == Err::<
            OpenedView,
            MeshError,
        >(MeshError::BadFileHeader),
        fk.len() == 32 && base.len() == 12 ==> {
            let u = unchunked(fk, base, m.header_ct, m.rest, 0, 0, count, Seq::empty());
            let whole = u.sound && u.chunks == count && u.bytes.len() == size;
            &&& !whole ==> opened_file(header, m) == Ok::<OpenedView, MeshError>(
                OpenedView::Incomplete {
                    chunks: u.chunks as u64,
                    expected_chunks: count,
                    size: u.bytes.len() as u64,
                    expected_size: size,
                },
            )
            &&& whole && hash != hex_text(blake2b_256(u.bytes)) ==> opened_file(header, m) == Ok::<
                OpenedView,
                MeshError,
            >(OpenedView::HashMismatch)
            &&& whole && hash == hex_text(blake2b_256(u.bytes)) ==> opened_file(header, m) == Ok::<
                OpenedView,
                MeshError,
            >(OpenedView::File { name, bytes: u.bytes })
        },
{
    broadcast use law_b64_reads_back;

}

/// A file whose header is no JSON is told from one whose header lacks a key or a nonce that can be
/// used.
pub proof fn law_headers_of_no_use(header: Seq<u8>, m: LegacyView)
    ensures
        opened_file(header, m) == Ok::<OpenedView, MeshError>(OpenedView::NotJson) <==> !is_json(
            header,
        ),
        is_json(header) && (json_text(header, "fk"@) matches Some(t) && b64_bytes(t) is None)
            ==> opened_file(header, m) == Err::<OpenedView, MeshError>(MeshError::BadFileHeader),
        is_json(header) && (json_text(header, "base_nonce"@) matches Some(t) && b64_bytes(
            t,
        ) is None) ==> opened_file(header, m) == Err::<OpenedView, MeshError>(
            MeshError::BadFileHeader,
        ),
        is_json(header) && json_text(header, "fk"@) is None ==> opened_file(header, m) == Err::<
            OpenedView,
            MeshError,
        >(MeshError::BadFileHeader),
        is_json(header) && json_text(header, "base_nonce"@) is None ==> opened_file(header, m)
            == Err::<OpenedView, MeshError>(MeshError::BadFileHeader),
{
    let nothing = Seq::<u8>::empty();
    reveal_strlit("");
    assert(""@ =~= b64url_text(nothing));
    law_b64_reads_back(nothing);
}

/// The two keys of a message that stands alone are the two halves of what its secret derives.
pub proof fn law_message_keys(sk: Seq<u8>)
    requires
        hkdf_sha256(Some(sk), sk, "mesh-v3-msg v1".spec_bytes(), 64).len() == 64,
    ensures
        header_key(sk) + text_key(sk) == hkdf_sha256(
            Some(sk),
            sk,
            "mesh-v3-msg v1".spec_bytes(),
            64,
        ),
        header_key(sk).len() == 32,
        text_key(sk).len() == 32,
{
    assert(header_key(sk) + text_key(sk) =~= message_okm(sk));
}

/// A text that stands alone is read: where the header opens under its nonce or under one of zeros,
/// and the body under the nonce before it and the header, the text is what the body holds.
pub proof fn law_text_is_read(
    sk: Seq<u8>,
    m: LegacyView,
    header: Seq<u8>,
    nonce: Seq<u8>,
    ct: Seq<u8>,
    text: Seq<u8>,
)
    requires
        m.kind == 1,
        xopened(header_key(sk), m.header_nonce, m.header_ct, Seq::empty()) == Some(header)
            || xopened(
            header_key(sk),
            Seq::new(24, |i: int| 0u8),
            m.header_ct,
            Seq::empty(),
        ) == Some(header),
        nonce.len() == 24,
        m.rest == nonce + ct,
    ensures
        xopened(text_key(sk), nonce, ct, m.header_ct) == Some(text) ==> opened(sk, m) == Ok::<
            OpenedView,
            MeshError,
        >(OpenedView::Text(text)),
        xopened(text_key(sk), nonce, ct, m.header_ct) is None ==> opened(sk, m) == Ok::<
            OpenedView,
            MeshError,
        >(OpenedView::BodyFailed),
{
    assert(m.rest.take(24) =~= nonce);
    assert(m.rest.skip(24) =~= ct);
}

/// A file that was written without the nonce of its header is opened: it is read as it is, or with
/// a nonce that is none, under which its header does not open, and is then read again without it.
pub proof fn law_bare_file_is_opened(sk: Seq<u8>, m: LegacyView, x: LegacyView, header: Seq<u8>)
    requires
        m.well_formed(),
        m.kind == 2,
        m.header_nonce == Seq::new(24, |i: int| 0u8),
        m.header_ct.len() < 0x10000,
        classified(bare_wire(m)) == InboundView::Legacy(x),
        xopened(header_key(sk), m.header_nonce, m.header_ct, Seq::empty()) == Some(header),
        x == m || (xopened(header_key(sk), x.header_nonce, x.header_ct, Seq::empty()) is None
            && xopened(
            header_key(sk),
            Seq::new(24, |i: int| 0u8),
            x.header_ct,
            Seq::empty(),
        ) is None),
    ensures
        opened(sk, x) == opened_file(header, m),
{
    law_bare_file_is_read(m);
    law_opened_by_kind(sk, m);
}

/// A message that stands alone is a text or a file by its kind alone, and neither where its header
/// does not open.
pub proof fn law_opened_by_kind(sk: Seq<u8>, m: LegacyView)
    ensures
        opened(sk, m) matches Ok(OpenedView::Text(_)) ==> m.kind == 1,
        opened(sk, m) matches Ok(OpenedView::File { name, bytes }) ==> m.kind == 2,
        opened(sk, m) matches Err(e) ==> m.kind == 2 && e == MeshError::BadFileHeader,
        m.kind != 1 && m.kind != 2 ==> opened(sk, m) == Ok::<OpenedView, MeshError>(
            OpenedView::Other,
        ) || opened(sk, m) == Ok::<OpenedView, MeshError>(OpenedView::HeaderFailed),
        m.kind != 2 && xopened(header_key(sk), m.header_nonce, m.header_ct, Seq::empty()) is None
            && xopened(
            header_key(sk),
            Seq::new(24, |i: int| 0u8),
            m.header_ct,
            Seq::empty(),
        ) is None ==> opened(sk, m) == Ok::<OpenedView, MeshError>(OpenedView::HeaderFailed),
        m.kind == 2 ==> (xopened(
            header_key(sk),
            m.header_nonce,
            m.header_ct,
            Seq::empty(),
        ) matches Some(header) ==> opened(sk, m) == opened_file(header, m)),
{
}

fn member_or(doc: &[u8], name: &str, other: &str) -> (r: String)
    ensures
        r@ == text_or(doc@, name@, other@),
{
    match read_text(doc, name) {
        Some(t) => t,
        None => other.to_owned(),
    }
}

fn count_or_zero(doc: &[u8], name: &str) -> (r: u64)
    ensures
        r == number_or_zero(doc@, name@),
{
    match read_number(doc, name) {
        Some(x) => x,
        None => 0,
    }
}

fn open_file(header: &[u8], m: &LegacyMessage) -> (r: Result<Opened, MeshError>)
    ensures
        res_view(r) == opened_file(header@, m@),
{
    if !parses(header) {
        return Ok(Opened::NotJson);
    }
    let fk_text = member_or(header, "fk", "");
    let base_text = member_or(header, "base_nonce", "");
    let mut fk_bytes = match b64_decode(fk_text.as_str()) {
        Ok(b) => b,
        Err(_) => {
            return Err(MeshError::BadFileHeader);
        },
    };
    let base_bytes = match b64_decode(base_text.as_str()) {
        Ok(b) => b,
        Err(_) => {
            return Err(MeshError::BadFileHeader);
        },
    };
    if fk_bytes.len() != KEY_LEN || base_bytes.len() != 12 {
        return Err(MeshError::BadFileHeader);
    }
    let mut fk = read_array32(fk_bytes.as_slice(), 0);
    let base = read_array12(base_bytes.as_slice(), 0);
    assert(fk@ =~= fk_bytes@);
    assert(base@ =~= base_bytes@);
    wipe(&mut fk_bytes);
    let count: u64 = count_or_zero(header, "chunks");
    let size: u64 = count_or_zero(header, "size");
    let hash = member_or(header, "hash", "");
    let name = member_or(header, "name", "file.bin");
    let (sound, chunks, bytes) = open_chunks(&fk, &base, &m.header_ct, &m.rest, count);
    wipe_key(&mut fk);
    if !sound || chunks != count || bytes.len() as u64 != size {
        return Ok(
            Opened::Incomplete {
                chunks,
                expected_chunks: count,
                size: bytes.len() as u64,
                expected_size: size,
            },
        );
    }
    let digest = blake2b_digest32(bytes.as_slice());
    if !same_text(hex_of(digest.as_slice()).as_str(), hash.as_str()) {
        return Ok(Opened::HashMismatch);
    }
    Ok(Opened::File { name, bytes })
}

fn open_bare_file(hek: &[u8; 32], sk: &[u8], m: &LegacyMessage) -> (r: Result<Opened, MeshError>)
    requires
        hek@ == header_key(sk@),
    ensures
        res_view(r) == (match opened_bare(sk@, m@) {
            Some(t) => opened_file(t.0, t.1),
            None => Ok(OpenedView::HeaderFailed),
        }),
{
    let no_aad = "".as_bytes();
    proof {
        reveal_strlit("");
        assert(no_aad@ =~= Seq::empty());
    }
    match drop_nonce(m) {
        None => Ok(Opened::HeaderFailed),
        Some(bare) => match xdec(hek, &bare.header_nonce, bare.header_ct.as_slice(), no_aad) {
            Ok(header) => open_file(header.as_slice(), &bare),
            Err(_) => Ok(Opened::HeaderFailed),
        },
    }
}

/// Opens a message that stands alone with the secret of its key agreement. A file whose header
/// holds no usable key or nonce is an error.
pub fn open_legacy(sk: &[u8], m: &LegacyMessage) -> (r: Result<Opened, MeshError>)
    ensures
        res_view(r) == opened(sk@, m@),
{
    let (hek, mut mk) = message_keys(sk);
    let no_aad = "".as_bytes();
    proof {
        reveal_strlit("");
        assert(no_aad@ =~= Seq::empty());
    }
    let header = match xdec(&hek, &m.header_nonce, m.header_ct.as_slice(), no_aad) {
        Ok(h) => h,
        Err(_) => {
            let zeros: [u8; 24] = [0u8;24];
            assert(zeros@ =~= Seq::new(NONCE_LEN as nat, |i: int| 0u8));
            match xdec(&hek, &zeros, m.header_ct.as_slice(), no_aad) {
                Ok(h) => h,
                Err(_) => {
                    if m.kind == 2 {
                        return open_bare_file(&hek, sk, m);
                    }
                    return Ok(Opened::HeaderFailed);
                },
            }
        },
    };
    if m.kind == 1 {
        if m.rest.len() < NONCE_LEN {
            return Ok(Opened::CutOff);
        }
        let rest = m.rest.as_slice();
        let nonce = read_array24(rest, 0);
        let body = slice_subrange(rest, NONCE_LEN, rest.len());
        assert(nonce@ =~= m.rest@.take(NONCE_LEN as int));
        assert(body@ =~= m.rest@.skip(NONCE_LEN as int));
        let text = xdec(&mk, &nonce, body, m.header_ct.as_slice());
        wipe_key(&mut mk);
        match text {
            Ok(pt) => Ok(Opened::Text(pt)),
            Err(_) => Ok(Opened::BodyFailed),
        }
    } else if m.kind == 2 {
        open_file(header.as_slice(), m)
    } else {
        Ok(Opened::Other)
    }
}

// ---------------------------------------------------------------- sending a file

/// The header of a file, as JSON.
pub open spec fn file_header(
    name: Seq<char>,
    file: Seq<u8>,
    fk: Seq<u8>,
    base: Seq<u8>,
    spk_id: u32,
    opk_id: u32,
) -> Seq<char> {
    json_object(
        seq![
            ("type"@, "file"@),
            ("name"@, name),
            ("hash"@, hex_text(blake2b_256(file))),
            ("fk"@, b64url_text(fk)),
            ("base_nonce"@, b64url_text(base)),
        ],
        seq![
            ("size"@, file.len() as int),
            ("chunks"@, chunk_count(file.len()) as int),
            ("chunk_size"@, CHUNK_SIZE as int),
            ("spk_id"@, spk_id as int),
            ("opk_id"@, opk_id as int),
        ],
    )
}

/// The members of the header of a file can be read out of it.
pub open spec fn file_header_readable(
    header: Seq<u8>,
    name: Seq<char>,
    file: Seq<u8>,
    fk: Seq<u8>,
    base: Seq<u8>,
    spk_id: u32,
    opk_id: u32,
) -> bool {
    &&& is_json(header)
    &&& json_text(header, "type"@) == Some("file"@)
    &&& json_text(header, "name"@) == Some(name)
    &&& json_text(header, "hash"@) == Some(hex_text(blake2b_256(file)))
    &&& json_text(header, "fk"@) == Some(b64url_text(fk))
    &&& json_text(header, "base_nonce"@) == Some(b64url_text(base))
    &&& json_number(header, "size"@) == Some(file.len() as u64)
    &&& json_number(header, "chunks"@) == Some(chunk_count(file.len()) as u64)
    &&& json_number(header, "chunk_size"@) == Some(CHUNK_SIZE as u64)
    &&& json_number(header, "spk_id"@) == Some(spk_id as u64)
    &&& json_number(header, "opk_id"@) == Some(opk_id as u64)
}

/// The header key of the secret opens the header of `m` to the header of the file, in which every
/// member can be read.
pub open spec fn file_header_opens(
    sk: Seq<u8>,
    m: LegacyView,
    name: Seq<char>,
    file: Seq<u8>,
    fk: Seq<u8>,
    base: Seq<u8>,
) -> bool {
    let header = encode_utf8(file_header(name, file, fk, base, m.init.spk_id, m.init.opk_id));
    &&& xopened(header_key(sk), m.header_nonce, m.header_ct, Seq::empty()) == Some(header)
    &&& file_header_readable(header, name, file, fk, base, m.init.spk_id, m.init.opk_id)
}

/// The header of a file has ten members and no others.
pub proof fn law_members_of_a_file_header(
    name: Seq<char>,
    file: Seq<u8>,
    fk: Seq<u8>,
    base: Seq<u8>,
    spk_id: u32,
    opk_id: u32,
)
    ensures
        exists|texts: Seq<(Seq<char>, Seq<char>)>, numbers: Seq<(Seq<char>, int)>|
            {
                &&& file_header(name, file, fk, base, spk_id, opk_id) == #[trigger] json_object(
                    texts,
                    numbers,
                )
                &&& texts.len() == 5
                &&& texts[0] == ("type"@, "file"@)
                &&& texts[1] == ("name"@, name)
                &&& texts[2] == ("hash"@, hex_text(blake2b_256(file)))
                &&& texts[3] == ("fk"@, b64url_text(fk))
                &&& texts[4] == ("base_nonce"@, b64url_text(base))
                &&& numbers.len() == 5
                &&& numbers[0] == ("size"@, file.len() as int)
                &&& numbers[1] == ("chunks"@, chunk_count(file.len()) as int)
                &&& numbers[2] == ("chunk_size"@, 65519int)
                &&& numbers[3] == ("spk_id"@, spk_id as int)
                &&& numbers[4] == ("opk_id"@, opk_id as int)
            },
{
    let texts = seq![
        ("type"@, "file"@),
        ("name"@, name),
        ("hash"@, hex_text(blake2b_256(file))),
        ("fk"@, b64url_text(fk)),
        ("base_nonce"@, b64url_text(base)),
    ];
    let numbers = seq![
        ("size"@, file.len() as int),
        ("chunks"@, chunk_count(file.len()) as int),
        ("chunk_size"@, CHUNK_SIZE as int),
        ("spk_id"@, spk_id as int),
        ("opk_id"@, opk_id as int),
    ];
    assert(file_header(name, file, fk, base, spk_id, opk_id) == json_object(texts, numbers));
}

/// Sends a file.
pub open spec fn outgoing_file(
    sk: Seq<u8>,
    init: InitKeysView,
    my_fp: Seq<char>,
    my_x_pub: Seq<u8>,
    name: Seq<char>,
    file: Seq<u8>,
    fk: Seq<u8>,
    base: Seq<u8>,
    header_nonce: Seq<u8>,
) -> Result<LegacyView, MeshError> {
    if file.len() > MAX_FILE {
        Err(MeshError::FileTooLarge)
    } else {
        match xsealed(
            header_key(sk),
            header_nonce,
            encode_utf8(file_header(name, file, fk, base, init.spk_id, init.opk_id)),
            Seq::empty(),
        ) {
            Err(e) => Err(e),
            Ok(header_ct) => if header_ct.len() >= 0x10000 {
                Err(MeshError::HeaderTooLong)
            } else {
                match fp_bytes(my_fp) {
                    Err(e) => Err(e),
                    Ok(fp) => Ok(
                        LegacyView {
                            kind: 2,
                            init,
                            sender_fp: fp,
                            sender_x: my_x_pub,
                            header_nonce,
                            header_ct,
                            rest: chunk_stream(fk, base, header_ct, file, chunk_count(file.len())),
                        },
                    ),
                }
            },
        }
    }
}

/// Sending a file succeeds: every file of up to 128 MiB is sent, by everyone who has a fingerprint,
/// as long as its header fits. The message carries what it is given. The premise on the header is
/// what `seal_file` finds of it.
pub proof fn law_files_are_sent(
    sk: Seq<u8>,
    init: InitKeysView,
    my_fp: Seq<char>,
    my_x_pub: Seq<u8>,
    name: Seq<char>,
    file: Seq<u8>,
    fk: Seq<u8>,
    base: Seq<u8>,
    header_nonce: Seq<u8>,
)
    requires
        file.len() <= 128 * 1024 * 1024,
        fp_bytes(my_fp) is Ok,
        header_fits(sk, header_nonce, name, file, fk, base, init),
    ensures
        outgoing_file(sk, init, my_fp, my_x_pub, name, file, fk, base, header_nonce) matches Ok(m)
            && {
            &&& m.kind == 2
            &&& m.init == init
            &&& fp_bytes(my_fp) == Ok::<Seq<u8>, MeshError>(m.sender_fp)
            &&& m.sender_x == my_x_pub
            &&& m.header_nonce == header_nonce
        },
{
}

/// The header of a file can be encrypted, and two bytes hold its length.
pub open spec fn header_fits(
    sk: Seq<u8>,
    header_nonce: Seq<u8>,
    name: Seq<char>,
    file: Seq<u8>,
    fk: Seq<u8>,
    base: Seq<u8>,
    init: InitKeysView,
) -> bool {
    let header = encode_utf8(file_header(name, file, fk, base, init.spk_id, init.opk_id));
    &&& header.len() + TAG_LEN < 0x10000
    &&& header.len() + TAG_LEN <= isize::MAX
    &&& xchacha_seal(header_key(sk), header_nonce, header, Seq::empty()).len() < 0x10000
}

/// Sending a file fails only where it must: a file over 128 MiB is too large, and no other is.
pub proof fn law_files_that_are_too_large(
    sk: Seq<u8>,
    init: InitKeysView,
    my_fp: Seq<char>,
    my_x_pub: Seq<u8>,
    name: Seq<char>,
    file: Seq<u8>,
    fk: Seq<u8>,
    base: Seq<u8>,
    header_nonce: Seq<u8>,
)
    ensures
        outgoing_file(sk, init, my_fp, my_x_pub, name, file, fk, base, header_nonce) == Err::<
            LegacyView,
            MeshError,
        >(MeshError::FileTooLarge) <==> file.len() > 128 * 1024 * 1024,
        outgoing_file(sk, init, my_fp, my_x_pub, name, file, fk, base, header_nonce) is Ok
            ==> fp_bytes(my_fp) is Ok,
{
}

/// Two texts that differ in length or in their first character are different.
proof fn lemma_names_differ(texts: Seq<(Seq<char>, Seq<char>)>, numbers: Seq<(Seq<char>, int)>)
    requires
        texts.len() == 5,
        numbers.len() == 5,
        texts[0].0 == "type"@,
        texts[1].0 == "name"@,
        texts[2].0 == "hash"@,
        texts[3].0 == "fk"@,
        texts[4].0 == "base_nonce"@,
        numbers[0].0 == "size"@,
        numbers[1].0 == "chunks"@,
        numbers[2].0 == "chunk_size"@,
        numbers[3].0 == "spk_id"@,
        numbers[4].0 == "opk_id"@,
    ensures
        distinct_names(texts, numbers),
{
    reveal_strlit("type");
    reveal_strlit("name");
    reveal_strlit("hash");
    reveal_strlit("fk");
    reveal_strlit("base_nonce");
    reveal_strlit("size");
    reveal_strlit("chunks");
    reveal_strlit("chunk_size");
    reveal_strlit("spk_id");
    reveal_strlit("opk_id");
    assert(texts[0].0[0] == 't');
    assert(texts[1].0[0] == 'n');
    assert(texts[2].0[0] == 'h');
    assert(texts[3].0[0] == 'f');
    assert(texts[4].0[0] == 'b');
    assert(numbers[0].0[0] == 's');
    assert(numbers[1].0[0] == 'c');
    assert(numbers[2].0[0] == 'c');
    assert(numbers[3].0[0] == 's');
    assert(numbers[4].0[0] == 'o');
    assert(numbers[0].0.len() == 4 && numbers[3].0.len() == 6);
    assert(numbers[1].0.len() == 6 && numbers[2].0.len() == 10);
    assert forall|i: int, j: int| 0 <= i < j < texts.len() implies (#[trigger] texts[i]).0 != (
    #[trigger] texts[j]).0 by {
        assert(texts[i].0[0] != texts[j].0[0]);
    }
    assert forall|i: int, j: int| 0 <= i < j < numbers.len() implies (#[trigger] numbers[i]).0 != (
    #[trigger] numbers[j]).0 by {
        assert(numbers[i].0[0] != numbers[j].0[0] || numbers[i].0.len() != numbers[j].0.len());
    }
    assert forall|i: int, j: int| 0 <= i < texts.len() && 0 <= j < numbers.len() implies (
    #[trigger] texts[i]).0 != (#[trigger] numbers[j]).0 by {
        assert(texts[i].0[0] != numbers[j].0[0]);
    }
}

proof fn lemma_header_bound(texts: Seq<(Seq<char>, Seq<char>)>, numbers: Seq<(Seq<char>, int)>)
    requires
        texts.len() == 5,
        numbers.len() == 5,
        texts[0].0 == "type"@,
        texts[1].0 == "name"@,
        texts[2].0 == "hash"@,
        texts[3].0 == "fk"@,
        texts[4].0 == "base_nonce"@,
        numbers[0].0 == "size"@,
        numbers[1].0 == "chunks"@,
        numbers[2].0 == "chunk_size"@,
        numbers[3].0 == "spk_id"@,
        numbers[4].0 == "opk_id"@,
    ensures
        texts_bound(texts) + numbers_bound(numbers) <= 1494 + 6 * (encode_utf8(texts[0].1).len()
            + encode_utf8(texts[1].1).len() + encode_utf8(texts[2].1).len() + encode_utf8(
            texts[3].1,
        ).len() + encode_utf8(texts[4].1).len()),
{
    reveal_strlit("type");
    reveal_strlit("name");
    reveal_strlit("hash");
    reveal_strlit("fk");
    reveal_strlit("base_nonce");
    reveal_strlit("size");
    reveal_strlit("chunks");
    reveal_strlit("chunk_size");
    reveal_strlit("spk_id");
    reveal_strlit("opk_id");
    lemma_utf8_len("type"@);
    lemma_utf8_len("name"@);
    lemma_utf8_len("hash"@);
    lemma_utf8_len("fk"@);
    lemma_utf8_len("base_nonce"@);
    lemma_utf8_len("size"@);
    lemma_utf8_len("chunks"@);
    lemma_utf8_len("chunk_size"@);
    lemma_utf8_len("spk_id"@);
    lemma_utf8_len("opk_id"@);
    reveal_with_fuel(texts_bound, 6);
    reveal_with_fuel(numbers_bound, 6);
}

fn file_header_json(
    name: &str,
    file: &[u8],
    fk: &[u8; 32],
    base: &[u8; 12],
    spk_id: u32,
    opk_id: u32,
) -> (r: String)
    requires
        file@.len() <= MAX_FILE,
    ensures
        r@ == file_header(name@, file@, fk@, base@, spk_id, opk_id),
        file_header_readable(encode_utf8(r@), name@, file@, fk@, base@, spk_id, opk_id),
        encode_utf8(r@).len() <= HEADER_BASE + 6 * encode_utf8(name@).len(),
{
    let count: usize = count_chunks(file.len());
    let digest = blake2b_digest32(file);
    let mut texts: Vec<(String, String)> = Vec::new();
    texts.push(("type".to_owned(), "file".to_owned()));
    texts.push(("name".to_owned(), name.to_owned()));
    texts.push(("hash".to_owned(), hex_of(digest.as_slice())));
    texts.push(("fk".to_owned(), b64_encode(fk.as_slice())));
    texts.push(("base_nonce".to_owned(), b64_encode(base.as_slice())));
    let mut numbers: Vec<(String, i64)> = Vec::new();
    numbers.push(("size".to_owned(), file.len() as i64));
    numbers.push(("chunks".to_owned(), count as i64));
    numbers.push(("chunk_size".to_owned(), CHUNK_SIZE as i64));
    numbers.push(("spk_id".to_owned(), spk_id as i64));
    numbers.push(("opk_id".to_owned(), opk_id as i64));
    proof {
        let t = text_members(texts@);
        let n = number_members(numbers@);
        assert(t =~= seq![
            ("type"@, "file"@),
            ("name"@, name@),
            ("hash"@, hex_text(blake2b_256(file@))),
            ("fk"@, b64url_text(fk@)),
            ("base_nonce"@, b64url_text(base@)),
        ]);
        assert(n =~= seq![
            ("size"@, file@.len() as int),
            ("chunks"@, chunk_count(file@.len()) as int),
            ("chunk_size"@, CHUNK_SIZE as int),
            ("spk_id"@, spk_id as int),
            ("opk_id"@, opk_id as int),
        ]);
        lemma_names_differ(t, n);
        lemma_header_bound(t, n);
        lemma_b64_len(fk@, true);
        lemma_b64_len(base@, true);
        lemma_utf8_len(b64url_text(fk@));
        lemma_utf8_len(b64url_text(base@));
        lemma_utf8_len(hex_text(blake2b_256(file@)));
        lemma_utf8_len("file"@);
        reveal_strlit("file");
    }
    let r = write_object(&texts, &numbers);
    assert(texts@[0].0@ == "type"@);
    assert(texts@[1].0@ == "name"@ && texts@[2].0@ == "hash"@);
    assert(texts@[3].0@ == "fk"@ && texts@[4].0@ == "base_nonce"@);
    assert(numbers@[0].0@ == "size"@ && numbers@[1].0@ == "chunks"@);
    assert(numbers@[2].0@ == "chunk_size"@);
    assert(numbers@[3].0@ == "spk_id"@ && numbers@[4].0@ == "opk_id"@);
    r
}

/// What was opened is a file that falls short of what its header announces.
pub open spec fn is_incomplete(r: Result<OpenedView, MeshError>) -> bool {
    r is Ok && r->Ok_0 is Incomplete
}

/// A message of which only the first `left` bytes after the header have arrived.
pub open spec fn cut_off(m: LegacyView, left: nat) -> LegacyView {
    LegacyView { rest: m.rest.take(left as int), ..m }
}

/// Encrypts a file under the secret of a key agreement, with given key and nonces. Opening the
/// message with the same secret gives the name and the contents back; a file that is cut off
/// anywhere is found to be incomplete. The header key opens the header, in which every member can
/// be read. The message is read back from the wire and stays within its limit. Only a name over
/// `NAME_LIMIT` can make a header whose length two bytes do not hold, and the file is then refused.
pub fn seal_file(
    sk: &[u8],
    init: &InitKeys,
    my_fp: &str,
    my_x_pub: &[u8; 32],
    name: &str,
    file: &[u8],
    fk: &[u8; 32],
    base: &[u8; 12],
    header_nonce: &[u8; 24],
) -> (r: Result<LegacyMessage, MeshError>)
    ensures
        res_view(r) == outgoing_file(
            sk@,
            init@,
            my_fp@,
            my_x_pub@,
            name@,
            file@,
            fk@,
            base@,
            header_nonce@,
        ),
        r matches Ok(m) ==> {
            &&& m@.well_formed()
            &&& opened(sk@, m@) == Ok::<OpenedView, MeshError>(
                OpenedView::File { name: name@, bytes: file@ },
            )
            &&& forall|left: nat|
                left < m@.rest.len() ==> is_incomplete(
                    opened(sk@, #[trigger] cut_off(m@, left)),
                )
            &&& file_header_opens(sk@, m@, name@, file@, fk@, base@)
            &&& m@.rest.len() == file@.len() + CHUNK_OVERHEAD * chunk_count(file@.len())
            &&& legacy_wire(m@).len() <= MAX_V3_BODY
            &&& classified(legacy_wire(m@)) == InboundView::Legacy(m@)
        },
        encode_utf8(name@).len() <= NAME_LIMIT ==> res_view(r) != Err::<LegacyView, MeshError>(
            MeshError::HeaderTooLong,
        ),
        file@.len() <= 128 * 1024 * 1024 && fp_bytes(my_fp@) is Ok && encode_utf8(name@).len()
            <= 10000 ==> r is Ok,
{
    if file.len() > MAX_FILE {
        return Err(MeshError::FileTooLarge);
    }
    let (hek, _mk) = message_keys(sk);
    let header = file_header_json(name, file, fk, base, init.spk_id, init.opk_id);
    let no_aad = "".as_bytes();
    proof {
        reveal_strlit("");
        assert(no_aad@ =~= Seq::empty());
    }
    let header_ct = xenc(&hek, header_nonce, header.as_str().as_bytes(), no_aad)?;
    if header_ct.len() >= 0x10000 {
        return Err(MeshError::HeaderTooLong);
    }
    let sender_fp = fp_to_bytes(my_fp)?;
    let rest = seal_chunks(fk, base, &header_ct, file);
    let m = LegacyMessage {
        kind: 2,
        init: *init,
        sender_fp,
        sender_x: *my_x_pub,
        header_nonce: *header_nonce,
        header_ct,
        rest,
    };
    proof {
        broadcast use law_b64_reads_back;

        let plain = encode_utf8(header@);
        assert(opened_header(sk@, m@) == Some(plain));
        assert(file@.take(chunk_start(file@.len(), 0) as int) =~= Seq::empty());
        lemma_stream_reads(fk@, base@, m@.header_ct, file@, 0);
        assert(opened_file(plain, m@) == Ok::<OpenedView, MeshError>(
            OpenedView::File { name: name@, bytes: file@ },
        ));
        assert(chunk_count(file@.len()) <= 2049);
        assert forall|left: nat| left < m@.rest.len() implies is_incomplete(
            opened(sk@, #[trigger] cut_off(m@, left)),
        ) by {
            lemma_cut_stream_reads(fk@, base@, m@.header_ct, file@, 0, left);
            assert(opened_header(sk@, cut_off(m@, left)) == Some(plain));
        }
        law_legacy_round_trip(m@);
    }
    Ok(m)
}

/// Encrypts a file under the secret of a key agreement, with a key and nonces that are drawn here.
pub fn send_file(
    sk: &[u8],
    init: &InitKeys,
    my_fp: &str,
    my_x_pub: &[u8; 32],
    name: &str,
    file: &[u8],
) -> (r: Result<LegacyMessage, MeshError>)
    ensures
        file@.len() > MAX_FILE ==> res_view(r) == Err::<LegacyView, MeshError>(
            MeshError::FileTooLarge,
        ),
        file@.len() <= MAX_FILE ==> res_view(r) == Err::<LegacyView, MeshError>(
            MeshError::NoRandomness,
        ) || exists|fk: Seq<u8>, base: Seq<u8>, header_nonce: Seq<u8>|
            {
                &&& fk.len() == KEY_LEN
                &&& base.len() == 12
                &&& header_nonce.len() == NONCE_LEN
                &&& res_view(r) == #[trigger] outgoing_file(
                    sk@,
                    init@,
                    my_fp@,
                    my_x_pub@,
                    name@,
                    file@,
                    fk,
                    base,
                    header_nonce,
                )
                &&& res_view(r) matches Ok(m) ==> file_header_opens(
                    sk@,
                    m,
                    name@,
                    file@,
                    fk,
                    base,
                )
            },
        r matches Ok(m) ==> {
            &&& m@.well_formed()
            &&& opened(sk@, m@) == Ok::<OpenedView, MeshError>(
                OpenedView::File { name: name@, bytes: file@ },
            )
            &&& legacy_wire(m@).len() <= MAX_V3_BODY
            &&& classified(legacy_wire(m@)) == InboundView::Legacy(m@)
        },
        encode_utf8(name@).len() <= NAME_LIMIT ==> res_view(r) != Err::<LegacyView, MeshError>(
            MeshError::HeaderTooLong,
        ),
        file@.len() <= 128 * 1024 * 1024 && fp_bytes(my_fp@) is Ok && encode_utf8(name@).len()
            <= 10000 ==> (r matches Err(e) ==> e == MeshError::NoRandomness),
{
    if file.len() > MAX_FILE {
        return Err(MeshError::FileTooLarge);
    }
    match (random_array::<32>(), random_array::<12>(), random_array::<24>()) {
        (Some(mut fk), Some(base), Some(header_nonce)) => {
            let r = seal_file(sk, init, my_fp, my_x_pub, name, file, &fk, &base, &header_nonce);
            wipe_key(&mut fk);
            r
        },
        _ => Err(MeshError::NoRandomness),
    }
}

} // verus!
