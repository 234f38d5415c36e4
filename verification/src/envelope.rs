//! Messages on the wire.
//!
//! Version 4 messages belong to a session; the first one of a conversation also carries the key
//! agreement. Version 3 messages stand alone: a text or a file with its own key agreement.
use vstd::prelude::*;
use vstd::slice::*;

use crate::bytes::{
    opt_view, push_be16, push_be32, push_bytes, read_array24, read_array32, read_be16, read_be32,
    read_bytes, KEY_LEN,
};

verus! {

use crate::bytes::{
    be16,
    be16_value,
    be32,
    be32_value,
    field,
    law_be16,
    law_numbers_are_read,
    lemma_be16,
    lemma_be32,
};

/// The length of the long nonces.
pub const NONCE_LEN: usize = 24;

/// The length of a message header above which a version 3 text is taken to carry no nonce.
pub const LEGACY_HEADER_LIMIT: usize = 2000;

// ---------------------------------------------------------------- version 4

/// What the first message of a conversation carries for the key agreement.
#[derive(Debug, Clone, Copy)]
pub struct InitKeys {
    /// The public ephemeral key.
    pub ek_pub: [u8; 32],
    /// The number of the signed prekey.
    pub spk_id: u32,
    /// The number of the one-time prekey.
    pub opk_id: u32,
}

/// What the first message of a conversation carries for the key agreement.
#[verifier::ext_equal]
pub ghost struct InitKeysView {
    pub ek_pub: Seq<u8>,
    pub spk_id: u32,
    pub opk_id: u32,
}

impl View for InitKeys {
    type V = InitKeysView;

    open spec fn view(&self) -> InitKeysView {
        InitKeysView { ek_pub: self.ek_pub@, spk_id: self.spk_id, opk_id: self.opk_id }
    }
}

/// A message of a session.
#[derive(Debug, Clone)]
pub struct DrMessage {
    /// The key agreement, in the first message.
    pub init: Option<InitKeys>,
    /// The sender's fingerprint.
    pub sender_fp: [u8; 32],
    /// The sender's identity key.
    pub sender_x: [u8; 32],
    /// The sender's ratchet key.
    pub dh_pub: [u8; 32],
    /// The length of the sender's chain before this one.
    pub pn: u32,
    /// The number of the message on its chain.
    pub n: u32,
    /// The nonce of the header.
    pub header_nonce: [u8; 24],
    /// The encrypted header.
    pub header_ct: Vec<u8>,
    /// The nonce of the body.
    pub body_nonce: [u8; 24],
    /// The encrypted body.
    pub body_ct: Vec<u8>,
}

/// A message of a session.
#[verifier::ext_equal]
pub ghost struct DrView {
    pub init: Option<InitKeysView>,
    pub sender_fp: Seq<u8>,
    pub sender_x: Seq<u8>,
    pub dh_pub: Seq<u8>,
    pub pn: u32,
    pub n: u32,
    pub header_nonce: Seq<u8>,
    pub header_ct: Seq<u8>,
    pub body_nonce: Seq<u8>,
    pub body_ct: Seq<u8>,
}

impl View for DrMessage {
    type V = DrView;

    open spec fn view(&self) -> DrView {
        DrView {
            init: opt_view(self.init),
            sender_fp: self.sender_fp@,
            sender_x: self.sender_x@,
            dh_pub: self.dh_pub@,
            pn: self.pn,
            n: self.n,
            header_nonce: self.header_nonce@,
            header_ct: self.header_ct@,
            body_nonce: self.body_nonce@,
            body_ct: self.body_ct@,
        }
    }
}

impl DrView {
    /// Keys and nonces have their lengths.
    pub open spec fn well_formed(self) -> bool {
        &&& self.init matches Some(init) ==> init.ek_pub.len() == KEY_LEN
        &&& self.sender_fp.len() == KEY_LEN
        &&& self.sender_x.len() == KEY_LEN
        &&& self.dh_pub.len() == KEY_LEN
        &&& self.header_nonce.len() == NONCE_LEN
        &&& self.body_nonce.len() == NONCE_LEN
    }
}

/// The first part of a message: who sends it, and the key agreement if there is one.
pub open spec fn dr_prefix(m: DrView) -> Seq<u8> {
    match m.init {
        Some(init) => seq![4u8, 1u8] + init.ek_pub + m.sender_fp + m.sender_x + be32(init.spk_id)
            + be32(init.opk_id),
        None => seq![4u8, 3u8] + m.sender_fp + m.sender_x,
    }
}

/// The second part of a message: the ratchet header, the encrypted header and the body.
pub open spec fn dr_rest(m: DrView) -> Seq<u8> {
    m.dh_pub + be32(m.pn) + be32(m.n) + m.header_nonce + be16(m.header_ct.len()) + m.header_ct
        + m.body_nonce + m.body_ct
}

/// A message on the wire.
pub open spec fn dr_wire(m: DrView) -> Seq<u8> {
    dr_prefix(m) + dr_rest(m)
}

/// Writes a message of a session.
pub fn encode_dr(m: &DrMessage) -> (r: Vec<u8>)
    ensures
        r@ == dr_wire(m@),
{
    let mut out: Vec<u8> = Vec::new();
    out.push(4);
    match &m.init {
        Some(init) => {
            out.push(1);
            push_bytes(&mut out, init.ek_pub.as_slice());
            push_bytes(&mut out, m.sender_fp.as_slice());
            push_bytes(&mut out, m.sender_x.as_slice());
            push_be32(&mut out, init.spk_id);
            push_be32(&mut out, init.opk_id);
        },
        None => {
            out.push(3);
            push_bytes(&mut out, m.sender_fp.as_slice());
            push_bytes(&mut out, m.sender_x.as_slice());
        },
    }
    assert(out@ =~= dr_prefix(m@));
    push_bytes(&mut out, m.dh_pub.as_slice());
    push_be32(&mut out, m.pn);
    push_be32(&mut out, m.n);
    push_bytes(&mut out, m.header_nonce.as_slice());
    push_be16(&mut out, m.header_ct.len());
    push_bytes(&mut out, m.header_ct.as_slice());
    push_bytes(&mut out, m.body_nonce.as_slice());
    push_bytes(&mut out, m.body_ct.as_slice());
    assert(out@ =~= dr_wire(m@));
    out
}

// ---------------------------------------------------------------- version 3

/// A message that stands alone.
#[derive(Debug, Clone)]
pub struct LegacyMessage {
    /// What it holds: 1 for a text, 2 for a file.
    pub kind: u8,
    /// The key agreement.
    pub init: InitKeys,
    /// The sender's fingerprint.
    pub sender_fp: [u8; 32],
    /// The sender's identity key.
    pub sender_x: [u8; 32],
    /// The nonce of the header: zeros where the message carries none.
    pub header_nonce: [u8; 24],
    /// The encrypted header.
    pub header_ct: Vec<u8>,
    /// All that follows the header.
    pub rest: Vec<u8>,
}

/// A message that stands alone.
#[verifier::ext_equal]
pub ghost struct LegacyView {
    pub kind: u8,
    pub init: InitKeysView,
    pub sender_fp: Seq<u8>,
    pub sender_x: Seq<u8>,
    pub header_nonce: Seq<u8>,
    pub header_ct: Seq<u8>,
    pub rest: Seq<u8>,
}

impl View for LegacyMessage {
    type V = LegacyView;

    open spec fn view(&self) -> LegacyView {
        LegacyView {
            kind: self.kind,
            init: self.init@,
            sender_fp: self.sender_fp@,
            sender_x: self.sender_x@,
            header_nonce: self.header_nonce@,
            header_ct: self.header_ct@,
            rest: self.rest@,
        }
    }
}

impl LegacyView {
    /// Keys and nonces have their lengths.
    pub open spec fn well_formed(self) -> bool {
        &&& self.init.ek_pub.len() == KEY_LEN
        &&& self.sender_fp.len() == KEY_LEN
        &&& self.sender_x.len() == KEY_LEN
        &&& self.header_nonce.len() == NONCE_LEN
    }
}

/// The first part of a message that stands alone: its kind, the key agreement and the sender.
pub open spec fn legacy_prefix(m: LegacyView) -> Seq<u8> {
    seq![3u8, m.kind] + m.init.ek_pub + m.sender_fp + m.sender_x + be32(m.init.spk_id) + be32(
        m.init.opk_id,
    )
}

/// A message that stands alone on the wire, with the nonce of its header.
pub open spec fn legacy_wire(m: LegacyView) -> Seq<u8> {
    legacy_prefix(m) + (m.header_nonce + be16(m.header_ct.len()) + m.header_ct + m.rest)
}

/// Writes a message that stands alone.
pub fn encode_legacy(m: &LegacyMessage) -> (r: Vec<u8>)
    ensures
        r@ == legacy_wire(m@),
{
    let mut out: Vec<u8> = Vec::new();
    out.push(3);
    out.push(m.kind);
    push_bytes(&mut out, m.init.ek_pub.as_slice());
    push_bytes(&mut out, m.sender_fp.as_slice());
    push_bytes(&mut out, m.sender_x.as_slice());
    push_be32(&mut out, m.init.spk_id);
    push_be32(&mut out, m.init.opk_id);
    assert(out@ =~= legacy_prefix(m@));
    push_bytes(&mut out, m.header_nonce.as_slice());
    push_be16(&mut out, m.header_ct.len());
    push_bytes(&mut out, m.header_ct.as_slice());
    push_bytes(&mut out, m.rest.as_slice());
    assert(out@ =~= legacy_wire(m@));
    out
}

// ---------------------------------------------------------------- reading

/// What a received message is.
#[derive(Debug, Clone)]
pub enum Inbound {
    /// Too short to have a version.
    Short,
    /// Of a version that is not known.
    UnknownVersion(u8),
    /// A version 4 message of a kind that is not known.
    UnknownSubtype(u8),
    /// Cut off before its end.
    CutOff,
    /// A message of a session.
    Dr(DrMessage),
    /// A message that stands alone.
    Legacy(LegacyMessage),
}

/// What a received message is.
pub ghost enum InboundView {
    Short,
    UnknownVersion(u8),
    UnknownSubtype(u8),
    CutOff,
    Dr(DrView),
    Legacy(LegacyView),
}

impl View for Inbound {
    type V = InboundView;

    open spec fn view(&self) -> InboundView {
        match self {
            Inbound::Short => InboundView::Short,
            Inbound::UnknownVersion(v) => InboundView::UnknownVersion(*v),
            Inbound::UnknownSubtype(t) => InboundView::UnknownSubtype(*t),
            Inbound::CutOff => InboundView::CutOff,
            Inbound::Dr(m) => InboundView::Dr(m@),
            Inbound::Legacy(m) => InboundView::Legacy(m@),
        }
    }
}

/// Reads the part of a version 4 message that starts at `at`, after what came before it.
pub open spec fn read_dr_rest(
    data: Seq<u8>,
    at: int,
    init: Option<InitKeysView>,
    sender_fp: Seq<u8>,
    sender_x: Seq<u8>,
) -> InboundView {
    let hlen = be16_value(field(data, at + 64, 2)) as int;
    if data.len() < at + 66 || data.len() < at + 66 + hlen + 24 {
        InboundView::CutOff
    } else {
        InboundView::Dr(
            DrView {
                init,
                sender_fp,
                sender_x,
                dh_pub: field(data, at, 32),
                pn: be32_value(field(data, at + 32, 4)),
                n: be32_value(field(data, at + 36, 4)),
                header_nonce: field(data, at + 40, 24),
                header_ct: field(data, at + 66, hlen),
                body_nonce: field(data, at + 66 + hlen, 24),
                body_ct: data.skip(at + 66 + hlen + 24),
            },
        )
    }
}

/// Reads a version 4 message.
pub open spec fn read_dr(data: Seq<u8>) -> InboundView {
    if data[1] == 1 {
        if data.len() < 106 {
            InboundView::CutOff
        } else {
            read_dr_rest(
                data,
                106,
                Some(
                    InitKeysView {
                        ek_pub: field(data, 2, 32),
                        spk_id: be32_value(field(data, 98, 4)),
                        opk_id: be32_value(field(data, 102, 4)),
                    },
                ),
                field(data, 34, 32),
                field(data, 66, 32),
            )
        }
    } else if data[1] == 3 {
        if data.len() < 66 {
            InboundView::CutOff
        } else {
            read_dr_rest(data, 66, None, field(data, 2, 32), field(data, 34, 32))
        }
    } else {
        InboundView::UnknownSubtype(data[1])
    }
}

/// A version 3 message is taken to carry the nonce of its header. A file is, where the header fits
/// when it is read that way; any other message, where the header is also short and more than a
/// nonce follows it.
pub open spec fn has_header_nonce(data: Seq<u8>) -> bool {
    let hlen = be16_value(field(data, 130, 2));
    &&& data.len() >= 132
    &&& if data[1] == 2 {
        data.len() >= 132 + hlen
    } else {
        hlen < LEGACY_HEADER_LIMIT && data.len() > 132 + hlen + 24
    }
}

/// Reads a version 3 message.
pub open spec fn read_legacy(data: Seq<u8>) -> InboundView {
    let at: int = if has_header_nonce(data) {
        132
    } else {
        108
    };
    let hlen = be16_value(field(data, at - 2, 2)) as int;
    if data.len() < 108 || data.len() < at + hlen {
        InboundView::CutOff
    } else {
        InboundView::Legacy(
            LegacyView {
                kind: data[1],
                init: InitKeysView {
                    ek_pub: field(data, 2, 32),
                    spk_id: be32_value(field(data, 98, 4)),
                    opk_id: be32_value(field(data, 102, 4)),
                },
                sender_fp: field(data, 34, 32),
                sender_x: field(data, 66, 32),
                header_nonce: if has_header_nonce(data) {
                    field(data, 106, 24)
                } else {
                    Seq::new(24, |i: int| 0u8)
                },
                header_ct: field(data, at, hlen),
                rest: data.skip(at + hlen),
            },
        )
    }
}

/// Reads a received message.
pub open spec fn classified(data: Seq<u8>) -> InboundView {
    if data.len() < 2 {
        InboundView::Short
    } else if data[0] == 3 {
        read_legacy(data)
    } else if data[0] == 4 {
        read_dr(data)
    } else {
        InboundView::UnknownVersion(data[0])
    }
}

fn bytes_from(data: &[u8], at: usize) -> (r: Vec<u8>)
    requires
        at <= data@.len(),
    ensures
        r@ == data@.skip(at as int),
{
    let end: usize = data.len();
    let r = slice_to_vec(slice_subrange(data, at, end));
    assert(r@ =~= data@.skip(at as int));
    r
}

fn parse_dr_rest(
    data: &[u8],
    at: usize,
    init: Option<InitKeys>,
    sender_fp: [u8; 32],
    sender_x: [u8; 32],
) -> (r: Inbound)
    requires
        at <= 106,
    ensures
        r@ == read_dr_rest(data@, at as int, opt_view(init), sender_fp@, sender_x@),
{
    if data.len() < at + 66 {
        return Inbound::CutOff;
    }
    let hlen: usize = read_be16(data, at + 64);
    if data.len() - (at + 66) < hlen + 24 {
        return Inbound::CutOff;
    }
    Inbound::Dr(
        DrMessage {
            init,
            sender_fp,
            sender_x,
            dh_pub: read_array32(data, at),
            pn: read_be32(data, at + 32),
            n: read_be32(data, at + 36),
            header_nonce: read_array24(data, at + 40),
            header_ct: read_bytes(data, at + 66, hlen),
            body_nonce: read_array24(data, at + 66 + hlen),
            body_ct: bytes_from(data, at + 66 + hlen + 24),
        },
    )
}

fn parse_legacy(data: &[u8]) -> (r: Inbound)
    requires
        data@.len() >= 2,
    ensures
        r@ == read_legacy(data@),
{
    if data.len() < 108 {
        return Inbound::CutOff;
    }
    let mut header_nonce: [u8; 24] = [0u8;24];
    assert(header_nonce@ =~= Seq::new(24, |i: int| 0u8));
    let mut at: usize = 108;
    if data.len() >= 132 {
        let possible: usize = read_be16(data, 130);
        let fits: bool = if data[1] == 2 {
            data.len() - 132 >= possible
        } else {
            possible < LEGACY_HEADER_LIMIT && data.len() - 132 > possible + 24
        };
        if fits {
            header_nonce = read_array24(data, 106);
            at = 132;
        }
    }
    let hlen: usize = read_be16(data, at - 2);
    if data.len() - at < hlen {
        return Inbound::CutOff;
    }
    Inbound::Legacy(
        LegacyMessage {
            kind: data[1],
            init: InitKeys {
                ek_pub: read_array32(data, 2),
                spk_id: read_be32(data, 98),
                opk_id: read_be32(data, 102),
            },
            sender_fp: read_array32(data, 34),
            sender_x: read_array32(data, 66),
            header_nonce,
            header_ct: read_bytes(data, at, hlen),
            rest: bytes_from(data, at + hlen),
        },
    )
}

/// Reads a received message.
pub fn parse_message(data: &[u8]) -> (r: Inbound)
    ensures
        r@ == classified(data@),
{
    if data.len() < 2 {
        return Inbound::Short;
    }
    if data[0] == 3 {
        parse_legacy(data)
    } else if data[0] == 4 {
        if data[1] == 1 {
            if data.len() < 106 {
                return Inbound::CutOff;
            }
            let init = InitKeys {
                ek_pub: read_array32(data, 2),
                spk_id: read_be32(data, 98),
                opk_id: read_be32(data, 102),
            };
            parse_dr_rest(data, 106, Some(init), read_array32(data, 34), read_array32(data, 66))
        } else if data[1] == 3 {
            if data.len() < 66 {
                return Inbound::CutOff;
            }
            parse_dr_rest(data, 66, None, read_array32(data, 2), read_array32(data, 34))
        } else {
            Inbound::UnknownSubtype(data[1])
        }
    } else {
        Inbound::UnknownVersion(data[0])
    }
}

// ---------------------------------------------------------------- laws of the wire

proof fn lemma_field_skip(data: Seq<u8>, at: int, from: int, len: int)
    requires
        0 <= at,
        0 <= from,
        0 <= len,
        at + from + len <= data.len(),
    ensures
        field(data, at + from, len) == field(data.skip(at), from, len),
{
    assert(field(data, at + from, len) =~= field(data.skip(at), from, len));
}

proof fn lemma_dr_rest(m: DrView, at: int, data: Seq<u8>)
    requires
        m.well_formed(),
        m.header_ct.len() < 0x10000,
        0 <= at,
        data.len() == at + dr_rest(m).len(),
        data.skip(at) == dr_rest(m),
    ensures
        read_dr_rest(data, at, m.init, m.sender_fp, m.sender_x) == InboundView::Dr(m),
{
    let rest = dr_rest(m);
    let hlen = m.header_ct.len() as int;
    lemma_field_skip(data, at, 0, 32);
    lemma_field_skip(data, at, 32, 4);
    lemma_field_skip(data, at, 36, 4);
    lemma_field_skip(data, at, 40, 24);
    lemma_field_skip(data, at, 64, 2);
    lemma_field_skip(data, at, 66, hlen);
    lemma_field_skip(data, at, 66 + hlen, 24);
    assert(field(rest, 0, 32) =~= m.dh_pub);
    assert(field(rest, 32, 4) =~= be32(m.pn));
    assert(field(rest, 36, 4) =~= be32(m.n));
    assert(field(rest, 40, 24) =~= m.header_nonce);
    assert(field(rest, 64, 2) =~= be16(m.header_ct.len()));
    assert(field(rest, 66, hlen) =~= m.header_ct);
    assert(field(rest, 66 + hlen, 24) =~= m.body_nonce);
    lemma_be16(m.header_ct.len());
    lemma_be32(m.pn);
    lemma_be32(m.n);
    assert(rest.skip(66 + hlen + 24) =~= m.body_ct);
    assert(data.skip(at + 66 + hlen + 24) =~= rest.skip(66 + hlen + 24));
}

/// A message of a session that was written is read back, as long as the length of its header fits
/// two bytes.
pub proof fn law_dr_round_trip(m: DrView)
    requires
        m.well_formed(),
        m.header_ct.len() < 0x10000,
    ensures
        classified(dr_wire(m)) == InboundView::Dr(m),
{
    let data = dr_wire(m);
    let prefix = dr_prefix(m);
    match m.init {
        Some(init) => {
            assert(prefix.len() == 106);
            assert(data.skip(106) =~= dr_rest(m));
            lemma_dr_rest(m, 106, data);
            assert(field(data, 2, 32) =~= init.ek_pub);
            assert(field(data, 34, 32) =~= m.sender_fp);
            assert(field(data, 66, 32) =~= m.sender_x);
            assert(field(data, 98, 4) =~= be32(init.spk_id));
            assert(field(data, 102, 4) =~= be32(init.opk_id));
            lemma_be32(init.spk_id);
            lemma_be32(init.opk_id);
            assert(m.init == Some(
                InitKeysView {
                    ek_pub: field(data, 2, 32),
                    spk_id: be32_value(field(data, 98, 4)),
                    opk_id: be32_value(field(data, 102, 4)),
                },
            ));
        },
        None => {
            assert(prefix.len() == 66);
            assert(data.skip(66) =~= dr_rest(m));
            lemma_dr_rest(m, 66, data);
            assert(field(data, 2, 32) =~= m.sender_fp);
            assert(field(data, 34, 32) =~= m.sender_x);
        },
    }
}

/// Where the parts of a message of a session stand on the wire: version 4, then 1 and the key
/// agreement in the first message of a conversation or 3 in any other, the sender, and at the place
/// `at` the ratchet key, the two numbers, and the header and the body, each after its nonce.
pub proof fn law_dr_layout(m: DrView, at: int)
    requires
        m.well_formed(),
        at == (if m.init is Some {
            106int
        } else {
            66int
        }),
    ensures
        ({
            let w = dr_wire(m);
            let hlen = m.header_ct.len() as int;
            &&& w.len() == at + 90 + hlen + m.body_ct.len()
            &&& w[0] == 4
            &&& m.init matches Some(init) ==> {
                &&& w[1] == 1
                &&& w.subrange(2, 34) == init.ek_pub
                &&& w.subrange(34, 66) == m.sender_fp
                &&& w.subrange(66, 98) == m.sender_x
                &&& be32_value(w.subrange(98, 102)) == init.spk_id
                &&& be32_value(w.subrange(102, 106)) == init.opk_id
            }
            &&& m.init is None ==> {
                &&& w[1] == 3
                &&& w.subrange(2, 34) == m.sender_fp
                &&& w.subrange(34, 66) == m.sender_x
            }
            &&& w.subrange(at, at + 32) == m.dh_pub
            &&& be32_value(w.subrange(at + 32, at + 36)) == m.pn
            &&& be32_value(w.subrange(at + 36, at + 40)) == m.n
            &&& w.subrange(at + 40, at + 64) == m.header_nonce
            &&& w[at + 64] * 256 + w[at + 65] == hlen % 65536
            &&& w.subrange(at + 66, at + 66 + hlen) == m.header_ct
            &&& w.subrange(at + 66 + hlen, at + 90 + hlen) == m.body_nonce
            &&& w.skip(at + 90 + hlen) == m.body_ct
        }),
{
    let w = dr_wire(m);
    let rest = dr_rest(m);
    let hlen = m.header_ct.len() as int;
    assert(dr_prefix(m).len() == at);
    assert(w.skip(at) =~= rest);
    if let Some(init) = m.init {
        assert(w.subrange(2, 34) =~= init.ek_pub);
        assert(w.subrange(34, 66) =~= m.sender_fp);
        assert(w.subrange(66, 98) =~= m.sender_x);
        assert(w.subrange(98, 102) =~= be32(init.spk_id));
        assert(w.subrange(102, 106) =~= be32(init.opk_id));
        lemma_be32(init.spk_id);
        lemma_be32(init.opk_id);
    } else {
        assert(w.subrange(2, 34) =~= m.sender_fp);
        assert(w.subrange(34, 66) =~= m.sender_x);
    }
    lemma_field_skip(w, at, 0, 32);
    lemma_field_skip(w, at, 32, 4);
    lemma_field_skip(w, at, 36, 4);
    lemma_field_skip(w, at, 40, 24);
    lemma_field_skip(w, at, 64, 2);
    lemma_field_skip(w, at, 66, hlen);
    lemma_field_skip(w, at, 66 + hlen, 24);
    assert(field(rest, 0, 32) =~= m.dh_pub);
    assert(field(rest, 32, 4) =~= be32(m.pn));
    assert(field(rest, 36, 4) =~= be32(m.n));
    assert(field(rest, 40, 24) =~= m.header_nonce);
    assert(field(rest, 64, 2) =~= be16(m.header_ct.len()));
    assert(field(rest, 66, hlen) =~= m.header_ct);
    assert(field(rest, 66 + hlen, 24) =~= m.body_nonce);
    lemma_be32(m.pn);
    lemma_be32(m.n);
    law_be16(m.header_ct.len());
    assert(field(w, at + 64, 2)[0] == w[at + 64]);
    assert(field(w, at + 64, 2)[1] == w[at + 65]);
    assert(w.skip(at + 90 + hlen) =~= rest.skip(90 + hlen));
    assert(rest.skip(90 + hlen) =~= m.body_ct);
}

proof fn lemma_be16_bytes(s: Seq<u8>)
    requires
        s.len() == 2,
    ensures
        be16(be16_value(s)) == s,
{
    assert(be16(be16_value(s)) =~= s);
}

proof fn lemma_be32_bytes(s: Seq<u8>)
    requires
        s.len() == 4,
    ensures
        be32(be32_value(s)) == s,
{
    assert(be32(be32_value(s)) =~= s);
}

proof fn lemma_split(data: Seq<u8>, from: int, to: int)
    requires
        0 <= from <= to <= data.len(),
    ensures
        data.take(from) + field(data, from, to - from) == data.take(to),
{
    assert(data.take(from) + field(data, from, to - from) =~= data.take(to));
}

/// A message of a session that was read is what was written, byte for byte: writing it gives the
/// same bytes.
pub proof fn law_dr_is_what_was_written(data: Seq<u8>, m: DrView)
    requires
        classified(data) == InboundView::Dr(m),
    ensures
        m.well_formed(),
        dr_wire(m) == data,
{
    let at: int = if data[1] == 1 {
        106
    } else {
        66
    };
    let hlen = be16_value(field(data, at + 64, 2)) as int;
    lemma_be16_bytes(field(data, at + 64, 2));
    lemma_be32_bytes(field(data, at + 32, 4));
    lemma_be32_bytes(field(data, at + 36, 4));
    let rest = data.skip(at);
    lemma_field_skip(data, at, 0, 32);
    lemma_field_skip(data, at, 32, 4);
    lemma_field_skip(data, at, 36, 4);
    lemma_field_skip(data, at, 40, 24);
    lemma_field_skip(data, at, 64, 2);
    lemma_field_skip(data, at, 66, hlen);
    lemma_field_skip(data, at, 66 + hlen, 24);
    assert(data.skip(at + 66 + hlen + 24) =~= rest.skip(66 + hlen + 24));
    lemma_split(rest, 0, 32);
    lemma_split(rest, 32, 36);
    lemma_split(rest, 36, 40);
    lemma_split(rest, 40, 64);
    lemma_split(rest, 64, 66);
    lemma_split(rest, 66, 66 + hlen);
    lemma_split(rest, 66 + hlen, 66 + hlen + 24);
    assert(rest.take(0) + field(rest, 0, 32) =~= field(rest, 0, 32));
    assert(dr_rest(m) == rest.take(66 + hlen + 24) + rest.skip(66 + hlen + 24));
    assert(rest.take(66 + hlen + 24) + rest.skip(66 + hlen + 24) =~= rest);
    if data[1] == 1 {
        lemma_be32_bytes(field(data, 98, 4));
        lemma_be32_bytes(field(data, 102, 4));
        lemma_split(data, 2, 34);
        lemma_split(data, 34, 66);
        lemma_split(data, 66, 98);
        lemma_split(data, 98, 102);
        lemma_split(data, 102, 106);
        assert(data.take(2) =~= seq![4u8, 1u8]);
        assert(dr_prefix(m) == data.take(106));
    } else {
        lemma_split(data, 2, 34);
        lemma_split(data, 34, 66);
        assert(data.take(2) =~= seq![4u8, 3u8]);
        assert(dr_prefix(m) == data.take(66));
    }
    assert(data.take(at) + data.skip(at) =~= data);
}

/// What a received message is, by its first two bytes: too short to tell, of a version that is not
/// known, of a kind that is not known, or one that is read or found to be cut off.
pub proof fn law_what_a_message_is(data: Seq<u8>)
    ensures
        classified(data) is Short <==> data.len() < 2,
        data.len() >= 2 && data[0] != 3 && data[0] != 4 ==> classified(data)
            == InboundView::UnknownVersion(data[0]),
        data.len() >= 2 && data[0] == 4 && data[1] != 1 && data[1] != 3 ==> classified(data)
            == InboundView::UnknownSubtype(data[1]),
        data.len() >= 2 && data[0] == 4 && (data[1] == 1 || data[1] == 3) ==> classified(data) is Dr
            || classified(data) is CutOff,
        data.len() >= 2 && data[0] == 3 ==> classified(data) is Legacy || classified(
            data,
        ) is CutOff,
        classified(data) matches InboundView::Dr(m) ==> data[0] == 4 && (m.init is Some <==> data[1]
            == 1),
        classified(data) matches InboundView::Legacy(m) ==> data[0] == 3 && m.kind == data[1],
{
}

/// A message of a session is cut off where, and only where, its end is missing: the part before the
/// header, the header, or the nonce of the body. A body may be empty.
pub proof fn law_where_a_message_is_cut_off(data: Seq<u8>, at: int)
    requires
        data.len() >= 2,
        data[0] == 4,
        data[1] == 1 || data[1] == 3,
        at == (if data[1] == 1 {
            106int
        } else {
            66int
        }),
    ensures
        classified(data) is CutOff <==> data.len() < at + 66 || data.len() < at + 90 + (data[at
            + 64] * 256 + data[at + 65]),
{
    if data.len() >= at + 66 {
        law_numbers_are_read(field(data, at + 64, 2));
        assert(field(data, at + 64, 2)[0] == data[at + 64]);
        assert(field(data, at + 64, 2)[1] == data[at + 65]);
    }
}

/// Where the parts of a message that stands alone stand on the wire.
pub proof fn law_legacy_layout(m: LegacyView)
    requires
        m.well_formed(),
    ensures
        ({
            let w = legacy_wire(m);
            let hlen = m.header_ct.len() as int;
            &&& w.len() == 132 + hlen + m.rest.len()
            &&& w[0] == 3
            &&& w[1] == m.kind
            &&& w.subrange(2, 34) == m.init.ek_pub
            &&& w.subrange(34, 66) == m.sender_fp
            &&& w.subrange(66, 98) == m.sender_x
            &&& be32_value(w.subrange(98, 102)) == m.init.spk_id
            &&& be32_value(w.subrange(102, 106)) == m.init.opk_id
            &&& w.subrange(106, 130) == m.header_nonce
            &&& w[130] * 256 + w[131] == hlen % 65536
            &&& w.subrange(132, 132 + hlen) == m.header_ct
            &&& w.skip(132 + hlen) == m.rest
        }),
{
    let w = legacy_wire(m);
    let hlen = m.header_ct.len() as int;
    assert(legacy_prefix(m).len() == 106);
    assert(w.subrange(2, 34) =~= m.init.ek_pub);
    assert(w.subrange(34, 66) =~= m.sender_fp);
    assert(w.subrange(66, 98) =~= m.sender_x);
    assert(w.subrange(98, 102) =~= be32(m.init.spk_id));
    assert(w.subrange(102, 106) =~= be32(m.init.opk_id));
    assert(w.subrange(106, 130) =~= m.header_nonce);
    assert(w.subrange(130, 132) =~= be16(m.header_ct.len()));
    assert(w.subrange(130, 132)[0] == w[130]);
    assert(w.subrange(130, 132)[1] == w[131]);
    lemma_be32(m.init.spk_id);
    lemma_be32(m.init.opk_id);
    law_be16(m.header_ct.len());
    assert(w.subrange(132, 132 + hlen) =~= m.header_ct);
    assert(w.skip(132 + hlen) =~= m.rest);
}

/// A message that stands alone and was read is what was written, byte for byte: writing it gives
/// the same bytes, with the nonce of its header or without one, which is then one of zeros.
pub proof fn law_legacy_is_what_was_written(data: Seq<u8>, m: LegacyView)
    requires
        classified(data) == InboundView::Legacy(m),
    ensures
        m.well_formed(),
        legacy_wire(m) == data || (bare_wire(m) == data && m.header_nonce == Seq::new(
            24,
            |i: int| 0u8,
        )),
{
    let at: int = if has_header_nonce(data) {
        132
    } else {
        108
    };
    let hlen = be16_value(field(data, at - 2, 2)) as int;
    lemma_be16_bytes(field(data, at - 2, 2));
    lemma_be32_bytes(field(data, 98, 4));
    lemma_be32_bytes(field(data, 102, 4));
    lemma_split(data, 2, 34);
    lemma_split(data, 34, 66);
    lemma_split(data, 66, 98);
    lemma_split(data, 98, 102);
    lemma_split(data, 102, 106);
    assert(data.take(2) =~= seq![3u8, data[1]]);
    assert(legacy_prefix(m) == data.take(106));
    let rest = data.skip(106);
    if has_header_nonce(data) {
        lemma_field_skip(data, 106, 0, 24);
        lemma_field_skip(data, 106, 24, 2);
        lemma_field_skip(data, 106, 26, hlen);
        lemma_split(rest, 0, 24);
        lemma_split(rest, 24, 26);
        lemma_split(rest, 26, 26 + hlen);
        assert(rest.take(0) + field(rest, 0, 24) =~= field(rest, 0, 24));
        assert(data.skip(132 + hlen) =~= rest.skip(26 + hlen));
        assert(rest.take(26 + hlen) + rest.skip(26 + hlen) =~= rest);
    } else {
        lemma_field_skip(data, 106, 0, 2);
        lemma_field_skip(data, 106, 2, hlen);
        lemma_split(rest, 0, 2);
        lemma_split(rest, 2, 2 + hlen);
        assert(rest.take(0) + field(rest, 0, 2) =~= field(rest, 0, 2));
        assert(data.skip(108 + hlen) =~= rest.skip(2 + hlen));
        assert(rest.take(2 + hlen) + rest.skip(2 + hlen) =~= rest);
    }
    assert(data.take(106) + rest =~= data);
}

/// A message other than a file that was written without the nonce of its header is read as it is,
/// where reading it with one makes no sense: where there is no room for one, or the header would be
/// long, or no more than a nonce would follow it.
pub proof fn law_bare_text_is_read(m: LegacyView)
    requires
        m.well_formed(),
        m.kind != 2,
        m.header_nonce == Seq::new(24, |i: int| 0u8),
        m.header_ct.len() < 0x10000,
        ({
            let w = bare_wire(m);
            let other = w[130] * 256 + w[131];
            w.len() < 132 || other >= 2000 || w.len() <= 132 + other + 24
        }),
    ensures
        classified(bare_wire(m)) == InboundView::Legacy(m),
{
    let data = bare_wire(m);
    let hlen = m.header_ct.len() as int;
    assert(legacy_prefix(m).len() == 106);
    assert(field(data, 2, 32) =~= m.init.ek_pub);
    assert(field(data, 34, 32) =~= m.sender_fp);
    assert(field(data, 66, 32) =~= m.sender_x);
    assert(field(data, 98, 4) =~= be32(m.init.spk_id));
    assert(field(data, 102, 4) =~= be32(m.init.opk_id));
    lemma_be32(m.init.spk_id);
    lemma_be32(m.init.opk_id);
    lemma_be16(m.header_ct.len());
    assert(data[1] == m.kind);
    if data.len() >= 132 {
        assert(field(data, 130, 2)[0] == data[130]);
        assert(field(data, 130, 2)[1] == data[131]);
    }
    assert(!has_header_nonce(data));
    assert(field(data, 106, 2) =~= be16(m.header_ct.len()));
    assert(field(data, 108, hlen) =~= m.header_ct);
    assert(data.skip(108 + hlen) =~= m.rest);
}

/// A message that stands alone and was written is read back, as long as the length of its header
/// fits two bytes and it is a file, or its header is short and more than a nonce follows it.
/// Without the last two the reader takes a text for one that carries no nonce.
pub proof fn law_legacy_round_trip(m: LegacyView)
    requires
        m.well_formed(),
        m.header_ct.len() < 0x10000,
        m.kind == 2 || (m.header_ct.len() < 2000 && m.rest.len() > 24),
    ensures
        classified(legacy_wire(m)) == InboundView::Legacy(m),
{
    let data = legacy_wire(m);
    let hlen = m.header_ct.len() as int;
    assert(legacy_prefix(m).len() == 106);
    assert(field(data, 2, 32) =~= m.init.ek_pub);
    assert(field(data, 34, 32) =~= m.sender_fp);
    assert(field(data, 66, 32) =~= m.sender_x);
    assert(field(data, 98, 4) =~= be32(m.init.spk_id));
    assert(field(data, 102, 4) =~= be32(m.init.opk_id));
    assert(field(data, 106, 24) =~= m.header_nonce);
    assert(field(data, 130, 2) =~= be16(m.header_ct.len()));
    lemma_be32(m.init.spk_id);
    lemma_be32(m.init.opk_id);
    lemma_be16(m.header_ct.len());
    assert(has_header_nonce(data));
    assert(field(data, 132, hlen) =~= m.header_ct);
    assert(data.skip(132 + hlen) =~= m.rest);
}

/// A message that stands alone on the wire, without the nonce of its header.
pub open spec fn bare_wire(m: LegacyView) -> Seq<u8> {
    legacy_prefix(m) + (be16(m.header_ct.len()) + m.header_ct + m.rest)
}

/// All that follows the first part of a message that was read with the nonce of its header.
pub open spec fn after_prefix(m: LegacyView) -> Seq<u8> {
    m.header_nonce + be16(m.header_ct.len()) + m.header_ct + m.rest
}

/// A message that was read with the nonce of its header, read without one instead, if the header
/// then fits. The nonce is then one of zeros.
pub open spec fn without_nonce(m: LegacyView) -> Option<LegacyView> {
    let tail = after_prefix(m);
    let hlen = be16_value(field(tail, 0, 2)) as int;
    if 2 + hlen <= tail.len() {
        Some(
            LegacyView {
                header_nonce: Seq::new(24, |i: int| 0u8),
                header_ct: field(tail, 2, hlen),
                rest: tail.skip(2 + hlen),
                ..m
            },
        )
    } else {
        None
    }
}

/// Reads a message without the nonce of its header.
pub fn drop_nonce(m: &LegacyMessage) -> (r: Option<LegacyMessage>)
    ensures
        opt_view(r) == without_nonce(m@),
{
    let mut tail: Vec<u8> = Vec::new();
    push_bytes(&mut tail, m.header_nonce.as_slice());
    push_be16(&mut tail, m.header_ct.len());
    push_bytes(&mut tail, m.header_ct.as_slice());
    push_bytes(&mut tail, m.rest.as_slice());
    assert(tail@ =~= after_prefix(m@));
    let data = tail.as_slice();
    let hlen: usize = read_be16(data, 0);
    if data.len() - 2 < hlen {
        return None;
    }
    let zeros: [u8; 24] = [0u8;24];
    assert(zeros@ =~= Seq::new(24, |i: int| 0u8));
    Some(
        LegacyMessage {
            kind: m.kind,
            init: m.init,
            sender_fp: m.sender_fp,
            sender_x: m.sender_x,
            header_nonce: zeros,
            header_ct: read_bytes(data, 2, hlen),
            rest: bytes_from(data, 2 + hlen),
        },
    )
}

/// A file that was written without the nonce of its header is read as it is, or else is what comes
/// of reading it without the nonce that was taken for one.
pub proof fn law_bare_file_is_read(m: LegacyView)
    requires
        m.well_formed(),
        m.kind == 2,
        m.header_nonce == Seq::new(24, |i: int| 0u8),
        m.header_ct.len() < 0x10000,
    ensures
        classified(bare_wire(m)) matches InboundView::Legacy(x) && (x == m || without_nonce(x)
            == Some(m)),
{
    let data = bare_wire(m);
    let hlen = m.header_ct.len() as int;
    assert(legacy_prefix(m).len() == 106);
    assert(field(data, 2, 32) =~= m.init.ek_pub);
    assert(field(data, 34, 32) =~= m.sender_fp);
    assert(field(data, 66, 32) =~= m.sender_x);
    assert(field(data, 98, 4) =~= be32(m.init.spk_id));
    assert(field(data, 102, 4) =~= be32(m.init.opk_id));
    lemma_be32(m.init.spk_id);
    lemma_be32(m.init.opk_id);
    lemma_be16(m.header_ct.len());
    let tail = be16(m.header_ct.len()) + m.header_ct + m.rest;
    assert(data.skip(106) =~= tail);
    assert(field(tail, 0, 2) =~= be16(m.header_ct.len()));
    assert(field(tail, 2, hlen) =~= m.header_ct);
    assert(tail.skip(2 + hlen) =~= m.rest);
    if has_header_nonce(data) {
        let other = be16_value(field(data, 130, 2));
        let x = classified(data)->Legacy_0;
        assert(be16(other) =~= field(data, 130, 2));
        assert(after_prefix(x) =~= tail);
    } else {
        assert(field(data, 106, 2) =~= field(tail, 0, 2));
        assert(field(data, 108, hlen) =~= m.header_ct);
        assert(data.skip(108 + hlen) =~= m.rest);
    }
}

// ---------------------------------------------------------------- the order of an inbox

/// A message that opens a conversation, or a text that stands alone.
pub open spec fn opens_conversation(data: Seq<u8>) -> bool {
    data.len() >= 2 && (data[0] == 4 || data[0] == 3) && data[1] == 1
}

/// Tells a message that opens a conversation.
pub fn is_x3dh_init(data: &[u8]) -> (r: bool)
    ensures
        r == opens_conversation(data@),
{
    if data.len() < 2 {
        return false;
    }
    (data[0] == 4 || data[0] == 3) && data[1] == 1
}

/// What opens a conversation is what is read as a first message, or as a text that stands alone;
/// and nothing else that is read is.
pub proof fn law_opens_conversation(data: Seq<u8>)
    ensures
        classified(data) matches InboundView::Dr(m) ==> (opens_conversation(data) <==> m.init
            is Some),
        classified(data) matches InboundView::Legacy(m) ==> (opens_conversation(data) <==> m.kind
            == 1),
        opens_conversation(data) ==> data.len() >= 2 && data[1] == 1 && (data[0] == 3 || data[0]
            == 4),
        data.len() >= 2 && data[1] == 1 && (data[0] == 3 || data[0] == 4) ==> opens_conversation(
            data,
        ),
{
}

/// The messages of an inbox, by name.
pub open spec fn inbox_view(v: Seq<(String, Vec<u8>)>) -> Seq<(Seq<char>, Seq<u8>)> {
    v.map_values(|m: (String, Vec<u8>)| (m.0@, m.1@))
}

/// The messages that open a conversation, or those that do not, in their order.
pub open spec fn only(s: Seq<(Seq<char>, Seq<u8>)>, opening: bool) -> Seq<(Seq<char>, Seq<u8>)>
    decreases s.len(),
{
    if s.len() == 0 {
        s
    } else if opens_conversation(s.last().1) == opening {
        only(s.drop_last(), opening).push(s.last())
    } else {
        only(s.drop_last(), opening)
    }
}

/// The order in which an inbox is processed: what opens a conversation comes first.
pub open spec fn processing_order(s: Seq<(Seq<char>, Seq<u8>)>) -> Seq<(Seq<char>, Seq<u8>)> {
    only(s, true) + only(s, false)
}

fn push_only(out: &mut Vec<(String, Vec<u8>)>, inbox: &Vec<(String, Vec<u8>)>, opening: bool)
    ensures
        inbox_view(final(out)@) == inbox_view(old(out)@) + only(inbox_view(inbox@), opening),
{
    let ghost all = inbox_view(inbox@);
    let ghost before = inbox_view(out@);
    let mut i: usize = 0;
    assert(all.take(0) =~= Seq::empty());
    assert(inbox_view(out@) =~= before + only(all.take(0), opening));
    while i < inbox.len()
        invariant
            i <= inbox@.len(),
            all == inbox_view(inbox@),
            inbox_view(out@) == before + only(all.take(i as int), opening),
        decreases inbox.len() - i,
    {
        assert(all.take(i + 1).drop_last() =~= all.take(i as int));
        assert(all.take(i + 1).last() == (inbox@[i as int].0@, inbox@[i as int].1@));
        let ghost sofar = inbox_view(out@);
        if is_x3dh_init(inbox[i].1.as_slice()) == opening {
            out.push((inbox[i].0.clone(), inbox[i].1.clone()));
            assert(inbox_view(out@) =~= sofar.push(all[i as int]));
            assert(inbox_view(out@) =~= before + only(all.take(i + 1), opening));
        }
        i = i + 1;
    }
    assert(all.take(i as int) =~= all);
}

/// Puts the messages that open a conversation first and keeps the order otherwise, so that a
/// session exists before the messages that need it.
pub fn order_inbox(inbox: &Vec<(String, Vec<u8>)>) -> (r: Vec<(String, Vec<u8>)>)
    ensures
        inbox_view(r@) == processing_order(inbox_view(inbox@)),
{
    let mut out: Vec<(String, Vec<u8>)> = Vec::new();
    assert(inbox_view(out@) =~= Seq::empty());
    push_only(&mut out, inbox, true);
    push_only(&mut out, inbox, false);
    assert(inbox_view(out@) =~= processing_order(inbox_view(inbox@)));
    out
}

proof fn lemma_only(s: Seq<(Seq<char>, Seq<u8>)>, opening: bool)
    ensures
        forall|i: int|
            0 <= i < only(s, opening).len() ==> opens_conversation(
                (#[trigger] only(s, opening)[i]).1,
            ) == opening,
    decreases s.len(),
{
    if s.len() > 0 {
        let before = only(s.drop_last(), opening);
        lemma_only(s.drop_last(), opening);
        assert forall|i: int| 0 <= i < only(s, opening).len() implies opens_conversation(
            (#[trigger] only(s, opening)[i]).1,
        ) == opening by {
            if i < before.len() {
                assert(only(s, opening)[i] == before[i]);
            }
        }
    }
}

proof fn lemma_only_counts(s: Seq<(Seq<char>, Seq<u8>)>)
    ensures
        only(s, true).to_multiset().add(only(s, false).to_multiset()) == s.to_multiset(),
    decreases s.len(),
{
    broadcast use vstd::seq_lib::group_to_multiset_ensures;

    if s.len() == 0 {
        assert(only(s, true).to_multiset().add(only(s, false).to_multiset())
            =~= s.to_multiset());
    } else {
        let rest = s.drop_last();
        lemma_only_counts(rest);
        assert(s =~= rest.push(s.last()));
        let opening = opens_conversation(s.last().1);
        assert(s.to_multiset() =~= rest.to_multiset().insert(s.last()));
        if opening {
            assert(only(s, true).to_multiset() =~= only(rest, true).to_multiset().insert(s.last()));
        } else {
            assert(only(s, false).to_multiset() =~= only(rest, false).to_multiset().insert(
                s.last(),
            ));
        }
        assert(only(s, true).to_multiset().add(only(s, false).to_multiset())
            =~= s.to_multiset());
    }
}

proof fn lemma_only_is_filter(s: Seq<(Seq<char>, Seq<u8>)>, opening: bool)
    ensures
        only(s, opening) == s.filter(
            |m: (Seq<char>, Seq<u8>)| opens_conversation(m.1) == opening,
        ),
    decreases s.len(),
{
    reveal(Seq::filter);
    if s.len() > 0 {
        lemma_only_is_filter(s.drop_last(), opening);
    }
}

/// Ordering an inbox keeps the order among the messages that open a conversation, and among those
/// that do not: the first come first, the others after them.
pub proof fn law_inbox_order_is_kept(s: Seq<(Seq<char>, Seq<u8>)>)
    ensures
        processing_order(s) == s.filter(|m: (Seq<char>, Seq<u8>)| opens_conversation(m.1) == true)
            + s.filter(|m: (Seq<char>, Seq<u8>)| opens_conversation(m.1) == false),
{
    lemma_only_is_filter(s, true);
    lemma_only_is_filter(s, false);
}

/// Ordering an inbox loses no message and adds none, and no message that opens a conversation
/// comes after one that does not.
pub proof fn law_inbox_order(s: Seq<(Seq<char>, Seq<u8>)>)
    ensures
        processing_order(s).to_multiset() == s.to_multiset(),
        forall|i: int, j: int|
            0 <= i < j < processing_order(s).len() && opens_conversation(
                (#[trigger] processing_order(s)[j]).1,
            ) ==> opens_conversation((#[trigger] processing_order(s)[i]).1),
{
    lemma_only(s, true);
    lemma_only(s, false);
    lemma_only_counts(s);
    vstd::seq_lib::lemma_multiset_commutative(only(s, true), only(s, false));
    let split = only(s, true).len();
    assert forall|i: int, j: int|
        0 <= i < j < processing_order(s).len() && opens_conversation(
            (#[trigger] processing_order(s)[j]).1,
        ) implies opens_conversation((#[trigger] processing_order(s)[i]).1) by {
        if j >= split {
            assert(processing_order(s)[j] == only(s, false)[j - split]);
        }
        assert(processing_order(s)[i] == only(s, true)[i]);
    }
}

} // verus!
