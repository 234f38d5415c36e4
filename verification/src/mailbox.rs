//! What the client tells the server about its mailbox, and what the server answers.
use vstd::prelude::*;
use vstd::string::*;

use crate::bytes::{opt_view, res_view};
use crate::encoding::b64_encode_standard;
use crate::error::MeshError;
use crate::json::{parses, read_list, read_text, write_object};
use crate::primitives::ed25519_sign;
use crate::text::{ascii_lower, decimal_int_text, trim};

verus! {

use vstd::utf8::encode_utf8;
use crate::json::{
    distinct_names,
    is_json,
    json_list,
    json_number,
    json_object,
    json_text,
    number_members,
    optional_texts,
    text_members,
};
use crate::b64::b64std_text;
use crate::encoding::{b64_bytes, law_b64_standard_reads_back};
use crate::kdf::signature_holds;
use crate::primitives::ed25519_signature;
use crate::text::{decimal_int, is_space, lemma_trimmed_push, lemma_trimmed_solid, lowered, trimmed};

// ---------------------------------------------------------------- replies

/// A string that the reply must hold.
pub open spec fn required_text(reply: Seq<u8>, name: Seq<char>, missing: MeshError) -> Result<
    Seq<char>,
    MeshError,
> {
    if !is_json(reply) {
        Err(MeshError::BadReply)
    } else {
        match json_text(reply, name) {
            Some(t) => Ok(t),
            None => Err(missing),
        }
    }
}

fn require_text(reply: &[u8], name: &str, missing: MeshError) -> (r: Result<String, MeshError>)
    ensures
        res_view(r) == required_text(reply@, name@, missing),
{
    if !parses(reply) {
        return Err(MeshError::BadReply);
    }
    match read_text(reply, name) {
        Some(t) => Ok(t),
        None => Err(missing),
    }
}

/// The nonce in the reply to a request for a challenge.
pub fn challenge_nonce(reply: &[u8]) -> (r: Result<String, MeshError>)
    ensures
        res_view(r) == required_text(reply@, "nonce"@, MeshError::MissingNonce),
{
    require_text(reply, "nonce", MeshError::MissingNonce)
}

/// The token in the reply to a claim.
pub fn claimed_token(reply: &[u8]) -> (r: Result<String, MeshError>)
    ensures
        res_view(r) == required_text(reply@, "token"@, MeshError::MissingToken),
{
    require_text(reply, "token", MeshError::MissingToken)
}

/// The token in the reply to a rotation, if there is one.
pub fn rotated_token(reply: &[u8]) -> (r: Option<String>)
    ensures
        opt_view(r) == (match required_text(reply@, "token"@, MeshError::MissingToken) {
            Ok(t) => Some(t),
            Err(_) => None,
        }),
{
    match claimed_token(reply) {
        Ok(t) => Some(t),
        Err(_) => None,
    }
}

/// The token file for a token.
pub fn token_line(token: &str) -> (r: String)
    ensures
        r@ == token@ + "\n"@,
{
    let mut out = token.to_owned();
    out.append("\n");
    out
}

/// The token that the text of its file holds.
pub fn token_of(text: &str) -> (r: String)
    ensures
        r@ == trimmed(text@),
{
    trim(text).to_owned()
}

/// A token that was written to its file is read back without the white space around it; a token
/// without any is read back as it was.
pub proof fn law_token_round_trip(token: Seq<char>)
    ensures
        trimmed(token + "\n"@) == trimmed(token),
        (forall|i: int| 0 <= i < token.len() ==> !is_space(#[trigger] token[i])) ==> trimmed(
            token + "\n"@,
        ) == token,
{
    reveal_strlit("\n");
    assert(token + "\n"@ =~= token.push('\n'));
    lemma_trimmed_push(token, '\n');
    if forall|i: int| 0 <= i < token.len() ==> !is_space(#[trigger] token[i]) {
        lemma_trimmed_solid(token);
    }
}

/// The names that are there and not empty, in their order.
pub open spec fn usable_ids(list: Seq<Option<Seq<char>>>) -> Seq<Seq<char>>
    decreases list.len(),
{
    if list.len() == 0 {
        Seq::empty()
    } else {
        let before = usable_ids(list.drop_last());
        match list.last() {
            Some(id) => if id.len() > 0 {
                before.push(id)
            } else {
                before
            },
            None => before,
        }
    }
}

/// The names of an inbox are those that are there and not empty, each as often as it is there and
/// in the same order.
pub proof fn law_usable_ids(list: Seq<Option<Seq<char>>>)
    ensures
        usable_ids(list).map_values(|id: Seq<char>| Some(id)) == list.filter(
            |o: Option<Seq<char>>| o is Some && o->0.len() > 0,
        ),
    decreases list.len(),
{
    reveal(Seq::filter);
    let there = |o: Option<Seq<char>>| o is Some && o->0.len() > 0;
    let wrap = |id: Seq<char>| Some(id);
    if list.len() > 0 {
        let rest = list.drop_last();
        law_usable_ids(rest);
        let before = usable_ids(rest);
        if there(list.last()) {
            assert(usable_ids(list) == before.push(list.last()->0));
            assert(usable_ids(list).map_values(wrap) =~= before.map_values(wrap).push(
                list.last(),
            ));
        } else {
            assert(usable_ids(list) == before);
        }
    } else {
        assert(usable_ids(list).map_values(wrap) =~= list);
        assert(list.filter(there) =~= list);
    }
}

/// The texts in a vector.
pub open spec fn texts_view(v: Seq<String>) -> Seq<Seq<char>> {
    v.map_values(|t: String| t@)
}

/// The list of messages in the server's reply: how many there are, and the names of those that have
/// one. A reply without a list has none.
pub fn inbox_ids(reply: &[u8]) -> (r: Result<(usize, Vec<String>), MeshError>)
    ensures
        !is_json(reply@) ==> r == Err::<(usize, Vec<String>), _>(MeshError::BadReply),
        is_json(reply@) ==> r is Ok && match json_list(reply@, "messages"@, "id"@) {
            Some(list) => r->Ok_0.0 == list.len() && texts_view(r->Ok_0.1@) == usable_ids(list),
            None => r->Ok_0.0 == 0 && r->Ok_0.1@.len() == 0,
        },
{
    if !parses(reply) {
        return Err(MeshError::BadReply);
    }
    match read_list(reply, "messages", "id") {
        Some(list) => {
            let ghost all = optional_texts(list@);
            let mut ids: Vec<String> = Vec::new();
            let mut i: usize = 0;
            assert(all.take(0) =~= Seq::empty());
            assert(texts_view(ids@) =~= usable_ids(all.take(0)));
            while i < list.len()
                invariant
                    i <= list@.len(),
                    all == optional_texts(list@),
                    texts_view(ids@) == usable_ids(all.take(i as int)),
                decreases list.len() - i,
            {
                assert(all.take(i + 1).drop_last() =~= all.take(i as int));
                assert(all.take(i + 1).last() == opt_view(list@[i as int]));
                let ghost before = texts_view(ids@);
                if let Some(id) = &list[i] {
                    if id.as_str().unicode_len() > 0 {
                        ids.push(id.clone());
                        assert(texts_view(ids@) =~= before.push(id@));
                    }
                }
                i = i + 1;
            }
            assert(all.take(i as int) =~= all);
            Ok((list.len(), ids))
        },
        None => Ok((0, Vec::new())),
    }
}

// ---------------------------------------------------------------- requests

/// What the owner of a mailbox signs to claim it.
pub open spec fn claim_text(fp: Seq<char>, ts: i64, nonce: Seq<char>) -> Seq<char> {
    "CLAIM /mesh/v3/"@ + fp + "/claim\n"@ + decimal_int(ts as int) + "\n"@ + nonce
}

/// What is signed to claim a mailbox names the mailbox, the time and the nonce of the challenge,
/// one after the other, so that no other claim has the same text.
pub proof fn law_claim_text(fp: Seq<char>, ts: i64, nonce: Seq<char>)
    ensures
        ({
            let t = claim_text(fp, ts, nonce);
            let at = 15 + fp.len() as int;
            let digits = decimal_int(ts as int).len() as int;
            &&& t.len() == at + 7 + digits + 1 + nonce.len()
            &&& t.take(15) == "CLAIM /mesh/v3/"@
            &&& t.subrange(15, at) == fp
            &&& t.subrange(at, at + 7) == "/claim\n"@
            &&& t.subrange(at + 7, at + 7 + digits) == decimal_int(ts as int)
            &&& t[at + 7 + digits] == '\n'
            &&& t.skip(at + 8 + digits) == nonce
        }),
{
    reveal_strlit("CLAIM /mesh/v3/");
    reveal_strlit("/claim\n");
    reveal_strlit("\n");
    let t = claim_text(fp, ts, nonce);
    let at = 15 + fp.len() as int;
    let digits = decimal_int(ts as int).len() as int;
    assert("CLAIM /mesh/v3/"@.len() == 15);
    assert("/claim\n"@.len() == 7);
    assert("\n"@.len() == 1);
    assert(t.take(15) =~= "CLAIM /mesh/v3/"@);
    assert(t.subrange(15, at) =~= fp);
    assert(t.subrange(at, at + 7) =~= "/claim\n"@);
    assert(t.subrange(at + 7, at + 7 + digits) =~= decimal_int(ts as int));
    assert(t.skip(at + 8 + digits) =~= nonce);
}

/// A claim is signed: its signature is that of its text under the seed of the owner.
pub proof fn law_claim_is_signed(ed_seed: Seq<u8>, fp: Seq<char>, ts: i64, nonce: Seq<char>)
    ensures
        b64_bytes(claim_signature(ed_seed, fp, ts, nonce)) == Some(
            ed25519_signature(ed_seed, encode_utf8(claim_text(fp, ts, nonce))),
        ),
{
    broadcast use law_b64_standard_reads_back;

}

/// A string that a reply must hold is what it has under the name; a reply without one, or that is
/// no JSON, is refused.
pub proof fn law_required_text(reply: Seq<u8>, name: Seq<char>, missing: MeshError, text: Seq<char>)
    ensures
        required_text(reply, name, missing) == Ok::<Seq<char>, MeshError>(text) <==> is_json(reply)
            && json_text(reply, name) == Some(text),
        !is_json(reply) ==> required_text(reply, name, missing) == Err::<Seq<char>, MeshError>(
            MeshError::BadReply,
        ),
        is_json(reply) && json_text(reply, name) is None ==> required_text(reply, name, missing)
            == Err::<Seq<char>, MeshError>(missing),
{
}

/// The signature of a claim, in standard base64.
pub open spec fn claim_signature(ed_seed: Seq<u8>, fp: Seq<char>, ts: i64, nonce: Seq<char>) -> Seq<
    char,
> {
    b64std_text(ed25519_signature(ed_seed, encode_utf8(claim_text(fp, ts, nonce))))
}

/// A claim of a mailbox.
#[derive(Debug, Clone)]
pub struct Claim {
    /// The time, as it goes into a header of the request.
    pub ts: String,
    /// The signature.
    pub sig: String,
    /// The body of the request.
    pub body: String,
}

/// Makes the claim that answers a challenge. Its signature holds.
pub fn make_claim(ed_seed: &[u8; 32], fp: &str, nonce: &str, ts: i64) -> (r: Claim)
    ensures
        r.ts@ == decimal_int(ts as int),
        r.sig@ == claim_signature(ed_seed@, fp@, ts, nonce@),
        r.body@ == json_object(
            seq![("nonce"@, nonce@), ("sig"@, r.sig@)],
            seq![("ts"@, ts as int)],
        ),
        json_text(encode_utf8(r.body@), "nonce"@) == Some(nonce@),
        json_text(encode_utf8(r.body@), "sig"@) == Some(r.sig@),
        ts >= 0 ==> json_number(encode_utf8(r.body@), "ts"@) == Some(ts as u64),
        signature_holds(ed_seed@, encode_utf8(claim_text(fp@, ts, nonce@))),
{
    let ts_text = decimal_int_text(ts);
    let mut text = "CLAIM /mesh/v3/".to_owned();
    text.append(fp);
    text.append("/claim\n");
    text.append(ts_text.as_str());
    text.append("\n");
    text.append(nonce);
    let signature = ed25519_sign(ed_seed, text.as_str().as_bytes());
    let sig = b64_encode_standard(signature.as_slice());
    let mut texts: Vec<(String, String)> = Vec::new();
    texts.push(("nonce".to_owned(), nonce.to_owned()));
    texts.push(("sig".to_owned(), sig.clone()));
    let mut numbers: Vec<(String, i64)> = Vec::new();
    numbers.push(("ts".to_owned(), ts));
    proof {
        reveal_strlit("nonce");
        reveal_strlit("sig");
        reveal_strlit("ts");
        assert(text_members(texts@) =~= seq![("nonce"@, nonce@), ("sig"@, sig@)]);
        assert(number_members(numbers@) =~= seq![("ts"@, ts as int)]);
        assert("nonce"@.len() == 5 && "sig"@.len() == 3 && "ts"@.len() == 2);
        assert(distinct_names(text_members(texts@), number_members(numbers@)));
    }
    let body = write_object(&texts, &numbers);
    assert(texts@[0].0@ == "nonce"@ && texts@[1].0@ == "sig"@);
    assert(numbers@[0].0@ == "ts"@);
    Claim { ts: ts_text, sig, body }
}

/// The body of a request to allow a peer or to take that back.
pub fn allow_body(fp: &str, action: &str) -> (r: String)
    ensures
        r@ == json_object(
            seq![("fp"@, lowered(fp@)), ("action"@, action@)],
            Seq::<(Seq<char>, int)>::empty(),
        ),
        json_text(encode_utf8(r@), "fp"@) == Some(lowered(fp@)),
        json_text(encode_utf8(r@), "action"@) == Some(action@),
{
    let mut texts: Vec<(String, String)> = Vec::new();
    texts.push(("fp".to_owned(), ascii_lower(fp)));
    texts.push(("action".to_owned(), action.to_owned()));
    let numbers: Vec<(String, i64)> = Vec::new();
    assert(text_members(texts@) =~= seq![("fp"@, lowered(fp@)), ("action"@, action@)]);
    assert(number_members(numbers@) =~= Seq::empty());
    proof {
        reveal_strlit("fp");
        reveal_strlit("action");
        assert("fp"@.len() == 2 && "action"@.len() == 6);
        assert(distinct_names(text_members(texts@), number_members(numbers@)));
    }
    let r = write_object(&texts, &numbers);
    assert(texts@[0].0@ == "fp"@ && texts@[1].0@ == "action"@);
    r
}

} // verus!
