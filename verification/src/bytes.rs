//! Byte sequences: fixed-size arrays, slices and integers on the wire.
use vstd::prelude::*;
use vstd::slice::*;

verus! {

/// The view of an optional value.
pub open spec fn opt_view<T: View>(o: Option<T>) -> Option<T::V> {
    match o {
        Some(v) => Some(v@),
        None => None,
    }
}

/// The view of a result.
pub open spec fn res_view<T: View, E>(r: Result<T, E>) -> Result<T::V, E> {
    match r {
        Ok(v) => Ok(v@),
        Err(e) => Err(e),
    }
}

/// The length of every key, public key and fingerprint.
pub const KEY_LEN: usize = 32;

/// The bytes of `s` from `from`, `len` of them.
pub open spec fn field(s: Seq<u8>, from: int, len: int) -> Seq<u8> {
    s.subrange(from, from + len)
}

/// Sixteen bits, most significant byte first.
pub open spec fn be16(x: nat) -> Seq<u8> {
    seq![(x / 0x100 % 0x100) as u8, (x % 0x100) as u8]
}

/// Thirty-two bits, most significant byte first.
pub open spec fn be32(x: u32) -> Seq<u8> {
    seq![
        (x / 0x1000000) as u8,
        (x / 0x10000 % 0x100) as u8,
        (x / 0x100 % 0x100) as u8,
        (x % 0x100) as u8,
    ]
}

/// Sixty-four bits, least significant byte first.
pub open spec fn le64(x: u64) -> Seq<u8> {
    seq![
        (x % 0x100) as u8,
        (x / 0x100 % 0x100) as u8,
        (x / 0x10000 % 0x100) as u8,
        (x / 0x1000000 % 0x100) as u8,
        (x / 0x100000000 % 0x100) as u8,
        (x / 0x10000000000 % 0x100) as u8,
        (x / 0x1000000000000 % 0x100) as u8,
        (x / 0x100000000000000) as u8,
    ]
}

/// The number that two bytes hold, most significant byte first.
pub open spec fn be16_value(s: Seq<u8>) -> nat {
    (s[0] as nat) * 0x100 + s[1] as nat
}

/// The number that four bytes hold, most significant byte first.
pub open spec fn be32_value(s: Seq<u8>) -> u32 {
    ((s[0] as nat) * 0x1000000 + (s[1] as nat) * 0x10000 + (s[2] as nat) * 0x100 + (
    s[3] as nat)) as u32
}

/// The number that eight bytes hold, least significant byte first.
pub open spec fn le64_value(s: Seq<u8>) -> int {
    s[0] + s[1] * 0x100 + s[2] * 0x10000 + s[3] * 0x1000000 + s[4] * 0x100000000 + s[5]
        * 0x10000000000 + s[6] * 0x1000000000000 + s[7] * 0x100000000000000
}

/// Sixteen bits are two bytes, the first of which counts for 256 times the second. What does not
/// fit them is dropped.
pub proof fn law_be16(x: nat)
    ensures
        be16(x).len() == 2,
        be16(x)[0] as nat * 256 + be16(x)[1] as nat == x % 65536,
{
}

/// Thirty-two bits are four bytes, each of which counts for 256 times the next one.
pub proof fn law_be32(x: u32)
    ensures
        be32(x).len() == 4,
        ((be32(x)[0] as nat * 256 + be32(x)[1] as nat) * 256 + be32(x)[2] as nat) * 256
            + be32(x)[3] as nat == x,
{
}

/// Sixty-four bits are eight bytes, each of which counts for 256 times the one before.
pub proof fn law_le64(x: u64)
    ensures
        le64(x).len() == 8,
        le64_value(le64(x)) == x,
{
    let x1 = x / 0x100;
    let x2 = x / 0x10000;
    let x3 = x / 0x1000000;
    let x4 = x / 0x100000000;
    let x5 = x / 0x10000000000;
    let x6 = x / 0x1000000000000;
    let x7 = x / 0x100000000000000;
    assert(x2 == x1 / 0x100);
    assert(x3 == x2 / 0x100);
    assert(x4 == x3 / 0x100);
    assert(x5 == x4 / 0x100);
    assert(x6 == x5 / 0x100);
    assert(x7 == x6 / 0x100);
    assert(x7 < 0x100);
    let s = le64(x);
    assert(s[0] == x - 0x100 * x1);
    assert(s[1] == x1 - 0x100 * x2);
    assert(s[2] == x2 - 0x100 * x3);
    assert(s[3] == x3 - 0x100 * x4);
    assert(s[4] == x4 - 0x100 * x5);
    assert(s[5] == x5 - 0x100 * x6);
    assert(s[6] == x6 - 0x100 * x7);
    assert(s[7] == x7);
}

/// Reading bytes as a number counts each for 256 times the next one.
pub proof fn law_numbers_are_read(s: Seq<u8>)
    ensures
        be16_value(s) == s[0] as nat * 256 + s[1] as nat,
        be32_value(s) as nat == ((s[0] as nat * 256 + s[1] as nat) * 256 + s[2] as nat) * 256
            + s[3] as nat,
{
}

/// Reading two bytes gives back the number that was written, if it fits.
pub proof fn lemma_be16(x: nat)
    requires
        x < 0x10000,
    ensures
        be16_value(be16(x)) == x,
{
}

/// Reading four bytes gives back the number that was written.
pub proof fn lemma_be32(x: u32)
    ensures
        be32_value(be32(x)) == x,
{
}

/// Appends `x` in sixteen bits, dropping what does not fit.
pub fn push_be16(out: &mut Vec<u8>, x: usize)
    ensures
        final(out)@ == old(out)@ + be16(x as nat),
{
    out.push((x / 0x100 % 0x100) as u8);
    out.push((x % 0x100) as u8);
    assert(out@ =~= old(out)@ + be16(x as nat));
}

/// Appends `x` in thirty-two bits.
pub fn push_be32(out: &mut Vec<u8>, x: u32)
    ensures
        final(out)@ == old(out)@ + be32(x),
{
    out.push((x / 0x1000000) as u8);
    out.push((x / 0x10000 % 0x100) as u8);
    out.push((x / 0x100 % 0x100) as u8);
    out.push((x % 0x100) as u8);
    assert(out@ =~= old(out)@ + be32(x));
}

/// Appends `x` in sixty-four bits, least significant byte first.
pub fn push_le64(out: &mut Vec<u8>, x: u64)
    ensures
        final(out)@ == old(out)@ + le64(x),
{
    out.push((x % 0x100) as u8);
    out.push((x / 0x100 % 0x100) as u8);
    out.push((x / 0x10000 % 0x100) as u8);
    out.push((x / 0x1000000 % 0x100) as u8);
    out.push((x / 0x100000000 % 0x100) as u8);
    out.push((x / 0x10000000000 % 0x100) as u8);
    out.push((x / 0x1000000000000 % 0x100) as u8);
    out.push((x / 0x100000000000000) as u8);
    assert(out@ =~= old(out)@ + le64(x));
}

/// Appends a slice.
pub fn push_bytes(out: &mut Vec<u8>, bytes: &[u8])
    ensures
        final(out)@ == old(out)@ + bytes@,
{
    out.extend_from_slice(bytes);
    assert(out@ =~= old(out)@ + bytes@);
}

/// Reads the sixteen bits at `at`.
pub fn read_be16(data: &[u8], at: usize) -> (r: usize)
    requires
        at + 2 <= data@.len(),
    ensures
        r == be16_value(field(data@, at as int, 2)),
        r < 0x10000,
{
    (data[at] as usize) * 0x100 + data[at + 1] as usize
}

/// Reads the thirty-two bits at `at`.
pub fn read_be32(data: &[u8], at: usize) -> (r: u32)
    requires
        at + 4 <= data@.len(),
    ensures
        r == be32_value(field(data@, at as int, 4)),
{
    (data[at] as u32) * 0x1000000 + (data[at + 1] as u32) * 0x10000 + (data[at + 2] as u32) * 0x100
        + data[at + 3] as u32
}

/// The `len` bytes at `at`.
pub fn read_bytes(data: &[u8], at: usize, len: usize) -> (r: Vec<u8>)
    requires
        at + len <= data@.len(),
    ensures
        r@ == field(data@, at as int, len as int),
{
    let end: usize = data.len();
    assert(at + len <= end);
    slice_to_vec(slice_subrange(data, at, at + len))
}

/// The thirty-two bytes at `at`.
pub fn read_array32(data: &[u8], at: usize) -> (r: [u8; 32])
    requires
        at + 32 <= data@.len(),
    ensures
        r@ == field(data@, at as int, 32),
{
    let mut out: [u8; 32] = [0u8;32];
    let mut i: usize = 0;
    while i < 32
        invariant
            i <= 32,
            at + 32 <= data.len(),
            forall|k: int| 0 <= k < i ==> out@[k] == data@[at + k],
        decreases 32 - i,
    {
        out[i] = data[at + i];
        i = i + 1;
    }
    assert(out@ =~= field(data@, at as int, 32));
    out
}

/// The twenty-four bytes at `at`.
pub fn read_array24(data: &[u8], at: usize) -> (r: [u8; 24])
    requires
        at + 24 <= data@.len(),
    ensures
        r@ == field(data@, at as int, 24),
{
    let mut out: [u8; 24] = [0u8;24];
    let mut i: usize = 0;
    while i < 24
        invariant
            i <= 24,
            at + 24 <= data.len(),
            forall|k: int| 0 <= k < i ==> out@[k] == data@[at + k],
        decreases 24 - i,
    {
        out[i] = data[at + i];
        i = i + 1;
    }
    assert(out@ =~= field(data@, at as int, 24));
    out
}

/// The twelve bytes at `at`.
pub fn read_array12(data: &[u8], at: usize) -> (r: [u8; 12])
    requires
        at + 12 <= data@.len(),
    ensures
        r@ == field(data@, at as int, 12),
{
    let mut out: [u8; 12] = [0u8;12];
    let mut i: usize = 0;
    while i < 12
        invariant
            i <= 12,
            at + 12 <= data.len(),
            forall|k: int| 0 <= k < i ==> out@[k] == data@[at + k],
        decreases 12 - i,
    {
        out[i] = data[at + i];
        i = i + 1;
    }
    assert(out@ =~= field(data@, at as int, 12));
    out
}

/// The sixty-four bytes at `at`.
pub fn read_array64(data: &[u8], at: usize) -> (r: [u8; 64])
    requires
        at + 64 <= data@.len(),
    ensures
        r@ == field(data@, at as int, 64),
{
    let mut out: [u8; 64] = [0u8;64];
    let mut i: usize = 0;
    while i < 64
        invariant
            i <= 64,
            at + 64 <= data.len(),
            forall|k: int| 0 <= k < i ==> out@[k] == data@[at + k],
        decreases 64 - i,
    {
        out[i] = data[at + i];
        i = i + 1;
    }
    assert(out@ =~= field(data@, at as int, 64));
    out
}

/// The thirty-two bytes of `v`, if that is its length.
pub fn exact32(v: &[u8]) -> (r: Option<[u8; 32]>)
    ensures
        v@.len() == 32 ==> r is Some && r->0@ == v@,
        v@.len() != 32 ==> r is None,
{
    if v.len() == 32 {
        assert(field(v@, 0, 32) =~= v@);
        Some(read_array32(v, 0))
    } else {
        None
    }
}

/// Compares two byte sequences.
pub fn same_bytes(a: &[u8], b: &[u8]) -> (r: bool)
    ensures
        r == (a@ == b@),
{
    if a.len() != b.len() {
        return false;
    }
    let mut i: usize = 0;
    while i < a.len()
        invariant
            i <= a@.len(),
            a@.len() == b@.len(),
            forall|k: int| 0 <= k < i ==> a@[k] == b@[k],
        decreases a.len() - i,
    {
        if a[i] != b[i] {
            return false;
        }
        i = i + 1;
    }
    assert(a@ =~= b@);
    true
}

/// Compares two texts.
pub fn same_text(a: &str, b: &str) -> (r: bool)
    ensures
        r == (a@ == b@),
{
    proof {
        vstd::utf8::encode_utf8_decode_utf8(a@);
        vstd::utf8::encode_utf8_decode_utf8(b@);
    }
    same_bytes(a.as_bytes(), b.as_bytes())
}

} // verus!
