//! The JSON-RPC control interface (aria2-style) as the daemon serves it and
//! the terminal client reads it: method names, error codes, sources of new
//! downloads, task status records, and the client's selection and colours.
use vstd::prelude::*;
use vstd::utf8::encode_utf8;
use crate::TaskId;
use crate::magnet::{hex_pair, hex_pair_of};
use crate::task::{DownloadPhase, MetaTask, TaskType};
use crate::text::{decimal, ends_with_in, ends_with_text, chars_of, parse_u64, parse_u64_of, push_decimal, str_to_string, text_eq};

verus! {

/// The methods the daemon answers.
#[derive(Debug, Clone, Copy, PartialEq, Eq, Structural)]
pub enum RpcMethod {
    AddUri,
    TellActive,
    Pause,
    Unpause,
    Remove,
}

/// A JSON-RPC error: its code and message.
#[derive(Debug)]
pub struct RpcError {
    pub code: i64,
    pub message: String,
}

/// The code of an unknown method.
pub const METHOD_NOT_FOUND: i64 = -32601;

/// The code of bad parameters.
pub const INVALID_PARAMS: i64 = -32602;

/// The code of an engine failure.
pub const SERVER_ERROR: i64 = -32000;

fn rpc_error(code: i64, message: &str) -> (e: RpcError)
    ensures
        e.code == code,
        e.message@ == message@,
{
    RpcError { code, message: str_to_string(message) }
}

/// The method named `name`.
pub open spec fn method_of(name: Seq<char>) -> Option<RpcMethod> {
    if name == "aria2.addUri"@ {
        Some(RpcMethod::AddUri)
    } else if name == "aria2.tellActive"@ {
        Some(RpcMethod::TellActive)
    } else if name == "aria2.pause"@ {
        Some(RpcMethod::Pause)
    } else if name == "aria2.unpause"@ {
        Some(RpcMethod::Unpause)
    } else if name == "aria2.remove"@ {
        Some(RpcMethod::Remove)
    } else {
        None
    }
}

/// The method a request names, or the "Method not found" error.
pub fn rpc_method(name: &str) -> (r: Result<RpcMethod, RpcError>)
    ensures
        match method_of(name@) {
            Some(m) => r == Ok::<RpcMethod, RpcError>(m),
            None => r matches Err(e) && e.code == METHOD_NOT_FOUND && e.message@ == "Method not found"@,
        },
{
    if text_eq(name, "aria2.addUri") {
        Ok(RpcMethod::AddUri)
    } else if text_eq(name, "aria2.tellActive") {
        Ok(RpcMethod::TellActive)
    } else if text_eq(name, "aria2.pause") {
        Ok(RpcMethod::Pause)
    } else if text_eq(name, "aria2.unpause") {
        Ok(RpcMethod::Unpause)
    } else if text_eq(name, "aria2.remove") {
        Ok(RpcMethod::Remove)
    } else {
        Err(rpc_error(METHOD_NOT_FOUND, "Method not found"))
    }
}

/// The protocol the daemon assumes for a URI: a `.torrent` file is a torrent,
/// anything else is fetched over HTTP.
pub open spec fn daemon_source_type(uri: Seq<char>) -> TaskType {
    if ends_with_text(uri, ".torrent"@) {
        TaskType::BitTorrent
    } else {
        TaskType::Http
    }
}

/// The protocol the command-line client assumes for a URI: a `.torrent`
/// file is a torrent, `ftp://` and `ftps://` URIs are FTP, the rest HTTP.
pub open spec fn cli_source_type(uri: Seq<char>) -> TaskType {
    if ends_with_text(uri, ".torrent"@) {
        TaskType::BitTorrent
    } else if (uri.len() >= 6 && uri.subrange(0, 6) == "ftp://"@) || (uri.len() >= 7 && uri.subrange(
        0,
        7,
    ) == "ftps://"@) {
        TaskType::Ftp
    } else {
        TaskType::Http
    }
}

fn starts_with(h: &Vec<char>, p: &Vec<char>) -> (r: bool)
    ensures
        r == (p@.len() <= h@.len() && h@.subrange(0, p@.len() as int) == p@),
{
    if p.len() > h.len() {
        return false;
    }
    let mut i: usize = 0;
    while i < p.len()
        invariant
            p@.len() <= h@.len(),
            i <= p@.len(),
            forall|k: int| 0 <= k < i ==> h@[k] == p@[k],
        decreases p@.len() - i,
    {
        if h[i] != p[i] {
            assert(h@.subrange(0, p@.len() as int)[i as int] != p@[i as int]);
            return false;
        }
        i = i + 1;
    }
    assert(h@.subrange(0, p@.len() as int) =~= p@);
    true
}

/// The protocol the daemon assumes for a URI.
pub fn daemon_task_type(uri: &str) -> (r: TaskType)
    ensures
        r == daemon_source_type(uri@),
{
    let u = chars_of(uri);
    let t = chars_of(".torrent");
    if ends_with_in(&u, &t) {
        TaskType::BitTorrent
    } else {
        TaskType::Http
    }
}

/// The protocol the command-line client assumes for a URI.
pub fn cli_task_type(uri: &str) -> (r: TaskType)
    ensures
        r == cli_source_type(uri@),
{
    proof {
        reveal_strlit("ftp://");
        reveal_strlit("ftps://");
    }
    let u = chars_of(uri);
    let t = chars_of(".torrent");
    let ftp = chars_of("ftp://");
    let ftps = chars_of("ftps://");
    if ends_with_in(&u, &t) {
        TaskType::BitTorrent
    } else if starts_with(&u, &ftp) || starts_with(&u, &ftps) {
        TaskType::Ftp
    } else {
        TaskType::Http
    }
}

/// The sources of an `addUri` request: each URI with the protocol the daemon
/// assumes for it; an empty list is refused.
pub fn add_uri_sources(uris: &Vec<String>) -> (r: Result<Vec<(String, TaskType)>, RpcError>)
    ensures
        uris@.len() == 0 ==> (r matches Err(e) && e.code == INVALID_PARAMS && e.message@
            == "Empty URI list"@),
        uris@.len() > 0 ==> (r matches Ok(v) && v@.len() == uris@.len() && forall|k: int|
            0 <= k < v@.len() ==> v@[k].0@ == uris@[k]@ && v@[k].1 == daemon_source_type(uris@[k]@)),
{
    if uris.len() == 0 {
        return Err(rpc_error(INVALID_PARAMS, "Empty URI list"));
    }
    let mut v: Vec<(String, TaskType)> = Vec::new();
    let mut i: usize = 0;
    while i < uris.len()
        invariant
            i <= uris@.len(),
            v@.len() == i,
            forall|k: int| 0 <= k < i ==> v@[k].0@ == uris@[k]@ && v@[k].1 == daemon_source_type(uris@[k]@),
        decreases uris@.len() - i,
    {
        let t = daemon_task_type(uris[i].as_str());
        v.push((uris[i].clone(), t));
        i = i + 1;
    }
    Ok(v)
}

/// The task named by a GID: its identifier written in decimal.
pub fn parse_gid(gid: &str) -> (r: Result<TaskId, RpcError>)
    ensures
        match parse_u64(gid@) {
            Some(n) => r matches Ok(id) && id == TaskId(n),
            None => r matches Err(e) && e.code == INVALID_PARAMS && e.message@ == "Invalid GID format"@,
        },
{
    match parse_u64_of(gid) {
        Some(n) => Ok(TaskId(n)),
        None => Err(rpc_error(INVALID_PARAMS, "Invalid GID format")),
    }
}

/// The status word of a phase: its name in lower case.
pub open spec fn phase_word(p: DownloadPhase) -> Seq<char> {
    match p {
        DownloadPhase::MetadataExchange => "metadataexchange"@,
        DownloadPhase::Downloading => "downloading"@,
        DownloadPhase::Paused => "paused"@,
        DownloadPhase::Complete => "complete"@,
        DownloadPhase::Error => "error"@,
    }
}

/// The status word of a phase.
pub fn phase_status(p: DownloadPhase) -> (r: String)
    ensures
        r@ == phase_word(p),
{
    match p {
        DownloadPhase::MetadataExchange => str_to_string("metadataexchange"),
        DownloadPhase::Downloading => str_to_string("downloading"),
        DownloadPhase::Paused => str_to_string("paused"),
        DownloadPhase::Complete => str_to_string("complete"),
        DownloadPhase::Error => str_to_string("error"),
    }
}

/// A task as `tellActive` reports it, every figure written in decimal.
#[derive(Debug)]
pub struct TaskStatus {
    pub gid: String,
    pub status: String,
    pub total_length: String,
    pub completed_length: String,
    pub name: String,
}

fn decimal_string(n: u64) -> (r: String)
    ensures
        r@ == decimal(n as nat),
{
    let mut s = String::new();
    push_decimal(&mut s, n);
    assert(Seq::<char>::empty() + decimal(n as nat) =~= decimal(n as nat));
    s
}

/// The status record of a task.
pub fn task_status(t: &MetaTask) -> (r: TaskStatus)
    ensures
        r.gid@ == decimal(t.id.0 as nat),
        r.status@ == phase_word(t.phase),
        r.total_length@ == decimal(t.total_length as nat),
        r.completed_length@ == decimal(t.completed_length as nat),
        r.name@ == t.name@,
{
    TaskStatus {
        gid: decimal_string(t.id.0),
        status: phase_status(t.phase),
        total_length: decimal_string(t.total_length),
        completed_length: decimal_string(t.completed_length),
        name: t.name.clone(),
    }
}

/// The row selected after moving down a list of `len` rows: the next one,
/// back to the first after the last.
pub open spec fn next_row(selected: Option<usize>, len: usize) -> usize {
    match selected {
        Some(i) => if i >= (if len == 0 { 0 } else { len - 1 }) {
            0
        } else {
            (i + 1) as usize
        },
        None => 0,
    }
}

/// The row selected after moving up: the previous one, on to the last
/// before the first.
pub open spec fn previous_row(selected: Option<usize>, len: usize) -> usize {
    match selected {
        Some(i) => if i == 0 {
            if len == 0 {
                0
            } else {
                (len - 1) as usize
            }
        } else {
            (i - 1) as usize
        },
        None => 0,
    }
}

/// Moves the selection of a list of `len` rows down.
pub fn next_index(selected: Option<usize>, len: usize) -> (r: usize)
    ensures
        r == next_row(selected, len),
{
    match selected {
        Some(i) => {
            if i >= len.saturating_sub(1) {
                0
            } else {
                i + 1
            }
        },
        None => 0,
    }
}

/// Moves the selection of a list of `len` rows up.
pub fn previous_index(selected: Option<usize>, len: usize) -> (r: usize)
    ensures
        r == previous_row(selected, len),
{
    match selected {
        Some(i) => {
            if i == 0 {
                len.saturating_sub(1)
            } else {
                i - 1
            }
        },
        None => 0,
    }
}

/// A text with its leading `#` characters taken off.
pub open spec fn trim_hashes(s: Seq<u8>) -> Seq<u8>
    decreases s.len(),
{
    if s.len() > 0 && s[0] == 35u8 {
        trim_hashes(s.subrange(1, s.len() as int))
    } else {
        s
    }
}

/// The colour of an `RRGGBB` hex text (after any leading `#`): three
/// two-digit base-16 numbers, read as `u8::from_str_radix` reads them.
pub open spec fn hex_color(s: Seq<u8>) -> Option<(u8, u8, u8)> {
    let h = trim_hashes(s);
    if h.len() != 6 {
        None
    } else {
        match (hex_pair(h[0], h[1]), hex_pair(h[2], h[3]), hex_pair(h[4], h[5])) {
            (Some(r), Some(g), Some(b)) => Some((r, g, b)),
            _ => None,
        }
    }
}

/// Reads a theme colour; a missing or malformed one is `None`.
pub fn parse_hex_color(hex: Option<&str>) -> (r: Option<(u8, u8, u8)>)
    ensures
        match hex {
            Some(h) => r == hex_color(encode_utf8(h@)),
            None => r is None,
        },
{
    let h = match hex {
        Some(h) => h,
        None => {
            return None;
        },
    };
    let b = h.as_bytes();
    assert(b@ == encode_utf8(h@));
    let n = b.len();
    let mut i: usize = 0;
    assert(b@.subrange(0, n as int) =~= b@);
    while i < n && b[i] == 35u8
        invariant
            n == b@.len(),
            i <= n,
            trim_hashes(b@) == trim_hashes(b@.subrange(i as int, n as int)),
        decreases n - i,
    {
        proof {
            let rest = b@.subrange(i as int, n as int);
            assert(rest.subrange(1, rest.len() as int) =~= b@.subrange(i + 1, n as int));
        }
        i = i + 1;
    }
    if n - i != 6 {
        return None;
    }
    let ghost t = b@.subrange(i as int, n as int);
    assert(t[0] == b@[i as int] && t[1] == b@[i + 1] && t[2] == b@[i + 2] && t[3] == b@[i + 3]
        && t[4] == b@[i + 4] && t[5] == b@[i + 5]);
    let r = match hex_pair_of(b[i], b[i + 1]) {
        Some(x) => x,
        None => {
            return None;
        },
    };
    let g = match hex_pair_of(b[i + 2], b[i + 3]) {
        Some(x) => x,
        None => {
            return None;
        },
    };
    let bl = match hex_pair_of(b[i + 4], b[i + 5]) {
        Some(x) => x,
        None => {
            return None;
        },
    };
    Some((r, g, bl))
}

} // verus!
