//! Where things are: files below the home directory, addresses on the server, and the clock.
use vstd::prelude::*;
use vstd::string::*;

use crate::error::MeshError;
use crate::primitives::epoch_elapsed;
use crate::text::{ascii_lower, decimal_text};
use crate::x3dh::OPK_NONE;

verus! {

use crate::bytes::opt_view;
use crate::text::{decimal, lemma_decimal_injective, lowered};

// ---------------------------------------------------------------- files

/// `name` below `base`: a name that starts at the root stands for itself.
pub open spec fn joined(base: Seq<char>, name: Seq<char>) -> Seq<char> {
    if name.len() > 0 && name[0] == '/' {
        name
    } else if base.len() == 0 || base.last() == '/' {
        base + name
    } else {
        base.push('/') + name
    }
}

/// A name below a directory is the directory and the name with one slash between them, where the
/// directory has a name and the name does not start at the root.
pub proof fn law_joined(base: Seq<char>, name: Seq<char>)
    ensures
        name.len() > 0 && name[0] == '/' ==> joined(base, name) == name,
        !(name.len() > 0 && name[0] == '/') && base.len() == 0 ==> joined(base, name) == name,
        !(name.len() > 0 && name[0] == '/') && base.len() > 0 ==> {
            let r = joined(base, name);
            let slash: int = if base.last() == '/' {
                0
            } else {
                1
            };
            &&& r.len() == base.len() + slash + name.len()
            &&& r.take(base.len() as int) == base
            &&& r.skip(r.len() - name.len()) == name
            &&& r[r.len() - name.len() - 1] == '/'
        },
{
    let r = joined(base, name);
    if !(name.len() > 0 && name[0] == '/') {
        if base.len() == 0 {
            assert(r =~= name);
        } else {
            assert(r.take(base.len() as int) =~= base);
            assert(r.skip(r.len() - name.len()) =~= name);
        }
    }
}

/// Joins a directory and a name.
pub fn join(base: &str, name: &str) -> (r: String)
    ensures
        r@ == joined(base@, name@),
{
    let name_len: usize = name.unicode_len();
    if name_len > 0 && name.get_char(0) == '/' {
        return name.to_owned();
    }
    let base_len: usize = base.unicode_len();
    let mut out = base.to_owned();
    if base_len > 0 && base.get_char(base_len - 1) != '/' {
        out.push('/');
    }
    out.append(name);
    out
}

/// The client's directory, below the home directory.
pub fn mesh_dir() -> (r: String)
    ensures
        r@ == ".mesh-v3"@,
{
    ".mesh-v3".to_owned()
}

/// The directory of the tokens, below the home directory.
pub fn keys_dir() -> (r: String)
    ensures
        r@ == joined(".mesh-v3"@, "keys"@),
{
    join(mesh_dir().as_str(), "keys")
}

/// The directory of the sessions, below the home directory.
pub fn sessions_dir() -> (r: String)
    ensures
        r@ == joined(".mesh-v3"@, "sessions"@),
{
    join(mesh_dir().as_str(), "sessions")
}

/// The directory of the private prekeys, below the home directory.
pub fn prekeys_dir() -> (r: String)
    ensures
        r@ == joined(".mesh-v3"@, "prekeys"@),
{
    join(mesh_dir().as_str(), "prekeys")
}

/// The file of the session with a peer, below the home directory.
pub fn session_path(peer_fp: &str) -> (r: String)
    ensures
        r@ == joined(joined(".mesh-v3"@, "sessions"@), lowered(peer_fp@) + ".json"@),
{
    let mut name = ascii_lower(peer_fp);
    name.append(".json");
    join(sessions_dir().as_str(), name.as_str())
}

/// The file of the token for the mailbox `fp`, below the home directory.
pub fn token_path(fp: &str) -> (r: String)
    ensures
        r@ == joined(joined(".mesh-v3"@, "keys"@), fp@ + ".key"@),
{
    let mut name = fp.to_owned();
    name.append(".key");
    join(keys_dir().as_str(), name.as_str())
}

/// The file of a private prekey of one kind, below the home directory.
pub open spec fn prekey_file(kind: Seq<char>, id: u32) -> Seq<char> {
    joined(joined(".mesh-v3"@, "prekeys"@), kind + "_"@ + decimal(id as nat) + ".priv"@)
}

/// Prekeys of one kind with different numbers are in different files.
pub proof fn law_prekey_files_differ(kind: Seq<char>, a: u32, b: u32)
    requires
        prekey_file(kind, a) == prekey_file(kind, b),
        kind.len() > 0,
        kind[0] != '/',
    ensures
        a == b,
{
    let dir = joined(".mesh-v3"@, "prekeys"@);
    let x = kind + "_"@ + decimal(a as nat) + ".priv"@;
    let y = kind + "_"@ + decimal(b as nat) + ".priv"@;
    let start = if dir.len() == 0 || dir.last() == '/' {
        dir
    } else {
        dir.push('/')
    };
    assert(x[0] == kind[0] && y[0] == kind[0]);
    assert(prekey_file(kind, a) == start + x);
    assert(prekey_file(kind, b) == start + y);
    assert((start + x).skip(start.len() as int) =~= x);
    assert((start + y).skip(start.len() as int) =~= y);
    let from = (kind + "_"@).len() as int;
    let tail = ".priv"@.len() as int;
    assert(x.subrange(from, x.len() - tail) =~= decimal(a as nat));
    assert(y.subrange(from, y.len() - tail) =~= decimal(b as nat));
    lemma_decimal_injective(a as nat, b as nat);
}

/// The file of a prekey is named by its kind and its number, in the directory of the prekeys.
pub proof fn law_prekey_file(kind: Seq<char>, id: u32)
    requires
        kind.len() > 0,
        kind[0] != '/',
    ensures
        prekey_file(kind, id) == ".mesh-v3/prekeys/"@ + kind + "_"@ + decimal(id as nat)
            + ".priv"@,
{
    reveal_strlit(".mesh-v3");
    reveal_strlit("prekeys");
    reveal_strlit(".mesh-v3/prekeys/");
    let dir = joined(".mesh-v3"@, "prekeys"@);
    let name = kind + "_"@ + decimal(id as nat) + ".priv"@;
    assert(name[0] == kind[0]);
    assert(".mesh-v3"@.last() != '/');
    assert("prekeys"@[0] != '/');
    assert(dir.last() != '/');
    assert(dir.push('/') =~= ".mesh-v3/prekeys/"@);
    assert(prekey_file(kind, id) =~= ".mesh-v3/prekeys/"@ + kind + "_"@ + decimal(id as nat)
        + ".priv"@);
}

fn numbered_prekey(kind: &str, id: u32) -> (r: String)
    ensures
        r@ == prekey_file(kind@, id),
{
    let mut name = kind.to_owned();
    name.append("_");
    name.append(decimal_text(id as u64).as_str());
    name.append(".priv");
    join(prekeys_dir().as_str(), name.as_str())
}

/// The file of the one-time prekey `id`.
pub fn opk_path(id: u32) -> (r: String)
    ensures
        r@ == prekey_file("opk"@, id),
{
    numbered_prekey("opk", id)
}

/// The file of the one-time prekey that a key agreement has used up, if it used one.
pub fn spent_prekey(opk_id: u32) -> (r: Option<String>)
    ensures
        opt_view(r) == (if opk_id == OPK_NONE {
            None
        } else {
            Some(prekey_file("opk"@, opk_id))
        }),
        r is Some <==> opk_id != 0xffff_ffff,
{
    if opk_id == OPK_NONE {
        None
    } else {
        Some(opk_path(opk_id))
    }
}

/// The file of the signed prekey `id`.
pub fn spk_path(id: u32) -> (r: String)
    ensures
        r@ == prekey_file("spk"@, id),
{
    numbered_prekey("spk", id)
}

/// The file to read a private prekey from. A signed prekey whose own file is gone is looked for
/// under the name of the latest one.
pub fn prekey_path(kind: &str, id: u32, spk_file_exists: bool) -> (r: String)
    ensures
        r@ == (if kind@ == "spk"@ {
            if spk_file_exists {
                prekey_file("spk"@, id)
            } else {
                joined(joined(".mesh-v3"@, "prekeys"@), "spk_priv"@)
            }
        } else {
            prekey_file("opk"@, id)
        }),
{
    if crate::bytes::same_text(kind, "spk") {
        if spk_file_exists {
            spk_path(id)
        } else {
            join(prekeys_dir().as_str(), "spk_priv")
        }
    } else {
        opk_path(id)
    }
}

// ---------------------------------------------------------------- addresses

/// `host` without the slashes it ends with.
pub open spec fn bare_host(host: Seq<char>) -> Seq<char>
    decreases host.len(),
{
    if host.len() > 0 && host.last() == '/' {
        bare_host(host.drop_last())
    } else {
        host
    }
}

/// The address of the mailbox `fp`, and of what `rest` names below it.
pub open spec fn mailbox_address(host: Seq<char>, fp: Seq<char>, rest: Seq<char>) -> Seq<char> {
    bare_host(host) + "/mesh/v3/"@ + fp + rest
}

/// A host loses the slashes that it ends with and nothing else.
pub proof fn law_bare_host(host: Seq<char>)
    ensures
        bare_host(host).len() <= host.len(),
        bare_host(host) == host.take(bare_host(host).len() as int),
        forall|i: int| bare_host(host).len() <= i < host.len() ==> #[trigger] host[i] == '/',
        bare_host(host).len() > 0 ==> bare_host(host).last() != '/',
    decreases host.len(),
{
    if host.len() > 0 && host.last() == '/' {
        let rest = host.drop_last();
        law_bare_host(rest);
        let n = bare_host(host).len() as int;
        assert(rest.take(n) =~= host.take(n));
        assert forall|i: int| n <= i < host.len() implies #[trigger] host[i] == '/' by {
            if i < host.len() - 1 {
                assert(rest[i] == host[i]);
            }
        }
    } else {
        assert(host.take(host.len() as int) =~= host);
    }
}

/// The address of a mailbox names the host, the mailbox and what is wanted of it, one after the
/// other.
pub proof fn law_mailbox_address(host: Seq<char>, fp: Seq<char>, rest: Seq<char>)
    ensures
        ({
            let r = mailbox_address(host, fp, rest);
            let at = bare_host(host).len() as int;
            &&& r.len() == at + 9 + fp.len() + rest.len()
            &&& r.take(at) == bare_host(host)
            &&& r.subrange(at, at + 9) == "/mesh/v3/"@
            &&& r.subrange(at + 9, at + 9 + fp.len()) == fp
            &&& r.skip(at + 9 + fp.len()) == rest
        }),
{
    reveal_strlit("/mesh/v3/");
    let r = mailbox_address(host, fp, rest);
    let at = bare_host(host).len() as int;
    assert("/mesh/v3/"@.len() == 9);
    assert(r.take(at) =~= bare_host(host));
    assert(r.subrange(at, at + 9) =~= "/mesh/v3/"@);
    assert(r.subrange(at + 9, at + 9 + fp.len()) =~= fp);
    assert(r.skip(at + 9 + fp.len()) =~= rest);
}

fn strip_slashes(host: &str) -> (r: &str)
    ensures
        r@ == bare_host(host@),
{
    let len: usize = host.unicode_len();
    let mut to: usize = len;
    assert(host@.take(to as int) =~= host@);
    while to > 0 && host.get_char(to - 1) == '/'
        invariant
            to <= len,
            len == host@.len(),
            bare_host(host@) == bare_host(host@.take(to as int)),
        decreases to,
    {
        assert(host@.take(to as int).drop_last() =~= host@.take(to - 1));
        to = to - 1;
    }
    assert(host@.take(to as int) =~= host@.subrange(0, to as int));
    host.substring_char(0, to)
}

/// Writes the address of a mailbox, and of what `rest` names below it.
pub fn mailbox_url(host: &str, fp: &str, rest: &str) -> (r: String)
    ensures
        r@ == mailbox_address(host@, fp@, rest@),
{
    let mut out = strip_slashes(host).to_owned();
    out.append("/mesh/v3/");
    out.append(fp);
    out.append(rest);
    out
}

/// The address of one message in a mailbox.
pub fn message_url(host: &str, fp: &str, id: &str) -> (r: String)
    ensures
        r@ == mailbox_address(host@, fp@, "/"@ + id@),
{
    let mut rest = "/".to_owned();
    rest.append(id);
    mailbox_url(host, fp, rest.as_str())
}

/// The address of a peer's prekey bundle.
pub fn bundle_url(host: &str, peer_fp: &str) -> (r: String)
    ensures
        r@ == mailbox_address(host@, lowered(peer_fp@), "/x3dh/bundle"@),
{
    mailbox_url(host, ascii_lower(peer_fp).as_str(), "/x3dh/bundle")
}

/// The address that piece `index` of the upload `file_id` goes to.
pub fn upload_piece_url(host: &str, peer_fp: &str, file_id: &str, index: usize) -> (r: String)
    ensures
        r@ == mailbox_address(
            host@,
            peer_fp@,
            "/file/"@ + file_id@ + "/chunk/"@ + decimal(index as nat),
        ),
{
    let mut rest = "/file/".to_owned();
    rest.append(file_id);
    rest.append("/chunk/");
    rest.append(decimal_text(index as u64).as_str());
    mailbox_url(host, peer_fp, rest.as_str())
}

/// The address that completes the upload `file_id`.
pub fn upload_finish_url(host: &str, peer_fp: &str, file_id: &str) -> (r: String)
    ensures
        r@ == mailbox_address(host@, peer_fp@, "/file/"@ + file_id@ + "/finalize"@),
{
    let mut rest = "/file/".to_owned();
    rest.append(file_id);
    rest.append("/finalize");
    mailbox_url(host, peer_fp, rest.as_str())
}

// ---------------------------------------------------------------- the clock

/// The time that a reading of the clock stands for, in seconds.
pub fn clock_seconds(elapsed: Option<u64>) -> (r: Result<i64, MeshError>)
    ensures
        r == (match elapsed {
            Some(secs) => Ok::<i64, MeshError>(secs as i64),
            None => Err(MeshError::NoClock),
        }),
{
    match elapsed {
        Some(secs) => Ok(secs as i64),
        None => Err(MeshError::NoClock),
    }
}

/// The present time in seconds since the epoch. What the clock shows is not known beforehand; the
/// one error is a clock that stands before the epoch.
pub fn now_secs() -> (r: Result<i64, MeshError>)
    ensures
        r matches Err(e) ==> e == MeshError::NoClock,
{
    clock_seconds(epoch_elapsed())
}

} // verus!
