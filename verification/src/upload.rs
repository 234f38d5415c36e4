//! How a message gets onto the server: in one request, or in pieces.
use vstd::prelude::*;
use vstd::slice::*;
use vstd::string::*;

use crate::encoding::hex_of;
use crate::error::MeshError;
use crate::primitives::random_array;
use crate::text::decimal_text;

verus! {

use crate::primitives::hex_text;
use crate::text::decimal;

/// The largest message that is sent in one request: 450 KiB.
pub const WHOLE_LIMIT: usize = 460800;

/// The size of a piece: 8 MiB.
pub const PIECE_SIZE: usize = 8388608;

/// The number of pieces of a message.
pub open spec fn piece_count(len: nat) -> nat {
    (len + PIECE_SIZE - 1) as nat / PIECE_SIZE as nat
}

/// Where piece `i` of a message starts; for the number of pieces, where the message ends.
pub open spec fn piece_start(len: nat, i: nat) -> nat {
    if i * PIECE_SIZE <= len {
        (i * PIECE_SIZE) as nat
    } else {
        len
    }
}

/// Piece `i` of a message.
pub open spec fn piece(wire: Seq<u8>, i: nat) -> Seq<u8> {
    wire.subrange(piece_start(wire.len(), i) as int, piece_start(wire.len(), i + 1) as int)
}

/// The first `count` pieces put together.
pub open spec fn pieces_joined(wire: Seq<u8>, count: nat) -> Seq<u8>
    decreases count,
{
    if count == 0 {
        Seq::empty()
    } else {
        pieces_joined(wire, (count - 1) as nat) + piece(wire, (count - 1) as nat)
    }
}

/// Whether a message of this length is sent in one request.
pub fn sent_whole(len: usize) -> (r: bool)
    ensures
        r == (len <= WHOLE_LIMIT),
        r <==> len <= 450 * 1024,
{
    len <= WHOLE_LIMIT
}

/// The number of pieces of a message.
pub fn count_pieces(len: usize) -> (r: usize)
    ensures
        r == piece_count(len as nat),
{
    let whole: usize = len / PIECE_SIZE;
    if len % PIECE_SIZE == 0 {
        whole
    } else {
        whole + 1
    }
}

/// Cuts piece `i` out of a message.
pub fn upload_piece(wire: &[u8], i: usize) -> (r: Vec<u8>)
    requires
        i < piece_count(wire@.len()),
    ensures
        r@ == piece(wire@, i as nat),
        0 < r@.len() <= PIECE_SIZE,
{
    let len: usize = wire.len();
    let from: usize = i * PIECE_SIZE;
    let to: usize = if len - from < PIECE_SIZE {
        len
    } else {
        from + PIECE_SIZE
    };
    slice_to_vec(slice_subrange(wire, from, to))
}

proof fn lemma_pieces_joined(wire: Seq<u8>, count: nat)
    requires
        count <= piece_count(wire.len()),
    ensures
        pieces_joined(wire, count) == wire.take(piece_start(wire.len(), count) as int),
    decreases count,
{
    if count == 0 {
        assert(wire.take(0) =~= Seq::empty());
    } else {
        let i = (count - 1) as nat;
        lemma_pieces_joined(wire, i);
        assert(i * PIECE_SIZE <= wire.len());
        assert(wire.take(piece_start(wire.len(), i) as int) + piece(wire, i) =~= wire.take(
            piece_start(wire.len(), count) as int,
        ));
    }
}

/// The pieces of a message, put together, are the message.
pub proof fn law_pieces_cover(wire: Seq<u8>)
    ensures
        pieces_joined(wire, piece_count(wire.len())) == wire,
{
    lemma_pieces_joined(wire, piece_count(wire.len()));
    assert(piece_start(wire.len(), piece_count(wire.len())) == wire.len());
    assert(wire.take(wire.len() as int) =~= wire);
}

/// A message has as many pieces of 8 MiB as it takes: the last one begins before its end.
pub proof fn law_piece_count(len: nat)
    ensures
        piece_count(len) * 8388608 >= len,
        len > 0 ==> piece_count(len) > 0 && (piece_count(len) - 1) * 8388608 < len,
        len == 0 ==> piece_count(len) == 0,
{
}

/// A piece of a message holds the bytes from 8 MiB times its number on: 8 MiB of them, or in the
/// last piece as many as are left.
pub proof fn law_piece_is_a_part_of_the_message(wire: Seq<u8>, i: nat)
    requires
        i < piece_count(wire.len()),
    ensures
        piece(wire, i).len() == (if wire.len() - i * 8388608 < 8388608 {
            wire.len() - i * 8388608
        } else {
            8388608
        }),
        forall|k: int|
            0 <= k < piece(wire, i).len() ==> #[trigger] piece(wire, i)[k] == wire[i * 8388608 + k],
{
}

/// What completes an upload of `total` pieces.
pub fn finish_body(total: usize) -> (r: String)
    ensures
        r@ == "{\"total\":"@ + decimal(total as nat) + "}"@,
{
    let mut out = "{\"total\":".to_owned();
    let digits = decimal_text(total as u64);
    out.append(digits.as_str());
    out.append("}");
    out
}

/// Whether the progress of an upload is reported after piece `i`: after every tenth, where there
/// are more than ten.
pub fn progress_due(i: usize, total: usize) -> (r: bool)
    requires
        i < total,
    ensures
        r == (total > 10 && (i + 1) % 10 == 0),
{
    total > 10 && (i + 1) % 10 == 0
}

/// The name of an upload, from sixteen bytes.
pub fn file_id(bytes: &[u8; 16]) -> (r: String)
    ensures
        r@ == hex_text(bytes@),
{
    hex_of(bytes.as_slice())
}

/// A name for a new upload, from bytes that are drawn here.
pub fn new_file_id() -> (r: Result<String, MeshError>)
    ensures
        r matches Ok(id) ==> exists|bytes: Seq<u8>|
            bytes.len() == 16 && id@ == #[trigger] hex_text(bytes),
        r matches Err(e) ==> e == MeshError::NoRandomness,
{
    match random_array::<16>() {
        Some(bytes) => Ok(file_id(&bytes)),
        None => Err(MeshError::NoRandomness),
    }
}

} // verus!
