//! What the protocol workers exchange with the engine, and the decisions of
//! the HTTP and FTP workers between their requests.
use vstd::prelude::*;
use crate::Error;
use crate::bencode::{lossy_string, utf8_lossy};
use crate::links::{join_url, url_join, url_parse, url_parts};
use crate::metalink::opt_text;
use crate::text::{
    chars_of, contains_in, contains_text, decimal, ends_with_in, ends_with_text, find_from, find_in,
    lemma_find_from, lowercase, parse_u64, parse_u64_of, push_decimal, push_str, str_to_string,
    text_eq, to_lower,
};

verus! {

/// A range of bytes to fetch: `length` bytes from `offset`.
#[derive(Debug, Clone, Copy, PartialEq, Eq, Structural)]
pub struct Segment {
    pub offset: u64,
    pub length: u64,
}

/// What a worker learnt of a source before downloading from it.
#[derive(Debug)]
pub struct Metadata {
    pub final_uri: String,
    pub total_length: Option<u64>,
    pub name: Option<String>,
}


/// How many redirects (and landing pages) a fetch follows.
pub const MAX_REDIRECTS: u32 = 10;

/// The `Range` header value asking for a segment: `bytes=first-last`.
pub open spec fn range_text(offset: u64, length: u64) -> Seq<char> {
    "bytes="@ + decimal(offset as nat) + "-"@ + decimal((offset + length - 1) as nat)
}

/// The `Range` header value that asks for `segment`.
pub fn range_header(segment: &Segment) -> (r: String)
    requires
        1 <= segment.offset + segment.length <= u64::MAX,
    ensures
        r@ == range_text(segment.offset, segment.length),
{
    let mut s = str_to_string("bytes=");
    push_decimal(&mut s, segment.offset);
    push_str(&mut s, "-");
    push_decimal(&mut s, segment.offset + segment.length - 1);
    s
}

/// The total length after the `/` of a `Content-Range` value.
pub open spec fn length_from_range(cr: Seq<char>) -> Option<u64> {
    let p = find_from(cr, seq!['/'], 0);
    if p >= 0 {
        parse_u64(cr.subrange(p + 1, cr.len() as int))
    } else {
        None
    }
}

/// The length of a resource from its headers: the total of `Content-Range`,
/// else `Content-Length`.
pub open spec fn length_from_headers(content_range: Option<Seq<char>>, content_length: Option<Seq<char>>) -> Option<u64> {
    match (match content_range {
        Some(cr) => length_from_range(cr),
        None => None,
    }) {
        Some(v) => Some(v),
        None => match content_length {
            Some(cl) => parse_u64(cl),
            None => None,
        },
    }
}

/// The length of a resource from its `Content-Range` and `Content-Length`
/// header values (those that could be read as text).
pub fn total_length_from_headers(content_range: Option<&str>, content_length: Option<&str>) -> (r: Option<u64>)
    ensures
        r == length_from_headers(
            match content_range {
                Some(s) => Some(s@),
                None => None,
            },
            match content_length {
                Some(s) => Some(s@),
                None => None,
            },
        ),
{
    let from_range = match content_range {
        Some(cr) => {
            let chars = chars_of(cr);
            let slash = chars_of("/");
            proof {
                reveal_strlit("/");
            }
            assert(slash@ =~= seq!['/']);
            match find_in(&chars, &slash, 0) {
                Some(p) => {
                    proof {
                        lemma_find_from(chars@, slash@, 0);
                    }
                    let n = cr.unicode_len();
                    parse_u64_of(cr.substring_char(p + 1, n))
                },
                None => None,
            }
        },
        None => None,
    };
    match from_range {
        Some(v) => Some(v),
        None => match content_length {
            Some(cl) => parse_u64_of(cl),
            None => None,
        },
    }
}

/// Whether a `Content-Type` value names an HTML page.
pub fn is_html_type(content_type: &str) -> (r: bool)
    ensures
        r == contains_text(lowercase(content_type@), "text/html"@),
{
    let lower = to_lower(content_type);
    let h = chars_of(lower.as_str());
    let p = chars_of("text/html");
    contains_in(&h, &p)
}

/// At most the first `n` bytes of `data`.
fn prefix(data: &[u8], n: usize) -> (r: Vec<u8>)
    ensures
        r@ == data@.take(if data@.len() < n { data@.len() as int } else { n as int }),
{
    let k = if data.len() < n {
        data.len()
    } else {
        n
    };
    let mut r: Vec<u8> = Vec::new();
    let mut i: usize = 0;
    while i < k
        invariant
            i <= k <= data@.len(),
            r@ == data@.take(i as int),
        decreases k - i,
    {
        r.push(data[i]);
        i = i + 1;
        assert(r@ =~= data@.take(i as int));
    }
    r
}

/// The first `n` bytes of a body as lower-case text, invalid UTF-8 replaced.
pub open spec fn body_text(data: Seq<u8>, n: int) -> Seq<char> {
    lowercase(utf8_lossy(data.take(if data.len() < n { data.len() as int } else { n })))
}

/// The start of a body (its first 256 KiB) as lower-case text, in which a
/// landing page is searched for a direct link.
pub fn landing_page_text(data: &[u8]) -> (r: String)
    ensures
        r@ == body_text(data@, 262144int),
{
    let head = prefix(data, 256 * 1024);
    let text = lossy_string(head.as_slice());
    to_lower(text.as_str())
}

/// Whether a body that was to be binary holds an HTML page: it is longer
/// than five bytes and its first 512 bytes hold `<!doctype html` or `<html`.
pub fn looks_like_html(data: &[u8]) -> (r: bool)
    ensures
        r == (data@.len() > 5 && (contains_text(body_text(data@, 512), "<!doctype html"@)
            || contains_text(body_text(data@, 512), "<html"@))),
{
    if data.len() <= 5 {
        return false;
    }
    let head = prefix(data, 512);
    let text = lossy_string(head.as_slice());
    let lower = to_lower(text.as_str());
    let h = chars_of(lower.as_str());
    let a = chars_of("<!doctype html");
    let b = chars_of("<html");
    contains_in(&h, &a) || contains_in(&h, &b)
}

/// Where a redirect leads from `current`: the `Location` value read against
/// the current URI, with the count of hops taken; past `MAX_REDIRECTS` hops
/// the fetch fails with `too_many`.
pub open spec fn redirect_of(current: Seq<char>, location: Option<Seq<char>>, count: int, too_many: Seq<char>) -> Result<
    (Seq<char>, int),
    Seq<char>,
> {
    if count + 1 > MAX_REDIRECTS {
        Err(too_many)
    } else {
        match location {
            None => Err("Redirect missing Location header"@),
            Some(loc) => match url_parse(current) {
                Err(m) => Err("Invalid base URL: "@ + m),
                Ok(_) => match url_join(current, loc) {
                    Err(m) => Err("Invalid redirect URL: "@ + m),
                    Ok((u, _, _)) => Ok((u, count + 1)),
                },
            },
        }
    }
}

/// A redirect that is followed counts one hop more, and none is followed
/// once `MAX_REDIRECTS` hops were taken: a chain of redirects ends after at
/// most `MAX_REDIRECTS` of them.
pub proof fn law_redirects_are_bounded(current: Seq<char>, location: Option<Seq<char>>, count: int, too_many: Seq<char>)
    ensures
        redirect_of(current, location, count, too_many) matches Ok((_, n)) ==> n == count + 1 && n
            <= MAX_REDIRECTS,
        count >= MAX_REDIRECTS ==> redirect_of(current, location, count, too_many) == Err::<(Seq<char>, int), Seq<char>>(too_many),
{
}

/// Follows a redirect answered to a request for `current`.
pub fn follow_redirect(current: &str, location: Option<&str>, count: u32, too_many: &str) -> (r: Result<
    (String, u32),
    Error,
>)
    requires
        count <= MAX_REDIRECTS,
    ensures
        match redirect_of(
            current@,
            match location {
                Some(s) => Some(s@),
                None => None,
            },
            count as int,
            too_many@,
        ) {
            Ok((u, n)) => r matches Ok((x, k)) && x@ == u && k == n,
            Err(m) => r matches Err(Error::Protocol(e)) && e@ == m,
        },
{
    let next = count + 1;
    if next > MAX_REDIRECTS {
        return Err(Error::Protocol(str_to_string(too_many)));
    }
    let loc = match location {
        Some(l) => l,
        None => {
            return Err(Error::Protocol(str_to_string("Redirect missing Location header")));
        },
    };
    if let Err(m) = url_parts(current) {
        let mut e = str_to_string("Invalid base URL: ");
        push_str(&mut e, m.as_str());
        return Err(Error::Protocol(e));
    }
    match join_url(current, loc) {
        Ok((u, _, _)) => Ok((u, next)),
        Err(m) => {
            let mut e = str_to_string("Invalid redirect URL: ");
            push_str(&mut e, m.as_str());
            Err(Error::Protocol(e))
        },
    }
}

/// A link path (with its query) that names an asset rather than a download.
pub open spec fn asset_path(pq: Seq<char>) -> bool {
    ends_with_text(pq, ".svg"@) || ends_with_text(pq, ".png"@) || ends_with_text(pq, ".css"@)
        || ends_with_text(pq, ".js"@) || contains_text(pq, "favicon"@)
}

/// A link path (with its query) that looks like a download.
pub open spec fn download_path(pq: Seq<char>) -> bool {
    contains_text(pq, "download"@) || contains_text(pq, "file"@) || contains_text(pq, "get"@)
}

/// The path and query of a joined URL, in lower case.
pub open spec fn path_query(path: Seq<char>, query: Option<Seq<char>>) -> Seq<char> {
    lowercase(
        path + match query {
            Some(q) => q,
            None => Seq::empty(),
        },
    )
}

/// The direct link chosen among the `href="…"` values of `h` from `pos` on,
/// `best` being the one chosen so far: the last link whose path looks like a
/// download, unless one with `download` in it comes first, which is taken at
/// once; links that do not join and asset links are passed over.
pub open spec fn link_scan(h: Seq<char>, base: Seq<char>, pos: int, best: Option<Seq<char>>) -> Option<
    Seq<char>,
>
    decreases h.len() - pos,
{
    let i = find_from(h, "href=\""@, pos);
    if pos < 0 || i < 0 {
        best
    } else {
        let start = i + 6;
        let end = find_from(h, "\""@, start);
        if end < 0 {
            best
        } else {
            proof {
                lemma_find_from(h, "href=\""@, pos);
                lemma_find_from(h, "\""@, start);
            }
            match url_join(base, h.subrange(start, end)) {
                Err(_) => link_scan(h, base, end, best),
                Ok((u, path, query)) => {
                    let pq = path_query(path, query);
                    if asset_path(pq) {
                        link_scan(h, base, end, best)
                    } else if download_path(pq) {
                        if contains_text(pq, "download"@) {
                            Some(u)
                        } else {
                            link_scan(h, base, end, Some(u))
                        }
                    } else {
                        link_scan(h, base, end, best)
                    }
                },
            }
        }
    }
}

/// The direct download link found in a landing page, if its base URI parses.
pub open spec fn direct_link(html: Seq<char>, base: Seq<char>) -> Option<Seq<char>> {
    if url_parse(base) is Err {
        None
    } else {
        link_scan(html, base, 0, None)
    }
}

/// Looks for a direct download link in (lower-case) landing page text.
pub fn find_direct_link(html: &str, base_uri: &str) -> (r: Option<String>)
    ensures
        opt_text(r) == direct_link(html@, base_uri@),
{
    if url_parts(base_uri).is_err() {
        return None;
    }
    let h = chars_of(html);
    let href = chars_of("href=\"");
    let quote = chars_of("\"");
    let svg = chars_of(".svg");
    let png = chars_of(".png");
    let css = chars_of(".css");
    let js = chars_of(".js");
    let favicon = chars_of("favicon");
    let download = chars_of("download");
    let file = chars_of("file");
    let get = chars_of("get");
    let ghost base = base_uri@;
    proof {
        reveal_strlit("href=\"");
    }
    let mut best: Option<String> = None;
    let mut pos: usize = 0;
    let mut done = false;
    while !done
        invariant
            h@ == html@,
            href@ == "href=\""@,
            href@.len() == 6,
            quote@ == "\""@,
            svg@ == ".svg"@,
            png@ == ".png"@,
            css@ == ".css"@,
            js@ == ".js"@,
            favicon@ == "favicon"@,
            download@ == "download"@,
            file@ == "file"@,
            get@ == "get"@,
            base == base_uri@,
            pos <= h@.len(),
            url_parse(base) is Ok,
            !done ==> link_scan(h@, base, 0, None) == link_scan(h@, base, pos as int, opt_text(best)),
            done ==> link_scan(h@, base, 0, None) == opt_text(best),
        decreases h@.len() - pos + if done { 0int } else { 1int },
    {
        match find_in(&h, &href, pos) {
            None => {
                done = true;
            },
            Some(i) => {
                proof {
                    lemma_find_from(h@, href@, pos as int);
                }
                assert(i + 6 <= h.len());
                let start = i + 6;
                match find_in(&h, &quote, start) {
                    None => {
                        done = true;
                    },
                    Some(end) => {
                        proof {
                            lemma_find_from(h@, quote@, start as int);
                        }
                        let link = html.substring_char(start, end);
                        match join_url(base_uri, link) {
                            Err(_) => {
                                pos = end;
                            },
                            Ok((u, path, query)) => {
                                let mut pq_raw = path;
                                if let Some(q) = &query {
                                    push_str(&mut pq_raw, q.as_str());
                                }
                                assert(pq_raw@ == path@ + match opt_text(query) {
                                    Some(q) => q,
                                    None => Seq::<char>::empty(),
                                });
                                let lower = to_lower(pq_raw.as_str());
                                let pq = chars_of(lower.as_str());
                                if ends_with_in(&pq, &svg) || ends_with_in(&pq, &png) || ends_with_in(
                                    &pq,
                                    &css,
                                ) || ends_with_in(&pq, &js) || contains_in(&pq, &favicon) {
                                    pos = end;
                                } else if contains_in(&pq, &download) || contains_in(&pq, &file)
                                    || contains_in(&pq, &get) {
                                    let is_download = contains_in(&pq, &download);
                                    best = Some(u);
                                    if is_download {
                                        done = true;
                                    } else {
                                        pos = end;
                                    }
                                } else {
                                    pos = end;
                                }
                            },
                        }
                    },
                }
            },
        }
    }
    best
}

/// The user and password of an FTP login: anonymous when the URL names none.
pub fn ftp_login(username: &str, password: Option<&str>) -> (r: (String, String))
    ensures
        r.0@ == if username@.len() == 0 {
            "anonymous"@
        } else {
            username@
        },
        r.1@ == match password {
            Some(p) => p@,
            None => "anonymous@aura.rs"@,
        },
{
    let user = if username.is_empty() {
        str_to_string("anonymous")
    } else {
        str_to_string(username)
    };
    let pass = match password {
        Some(p) => str_to_string(p),
        None => str_to_string("anonymous@aura.rs"),
    };
    (user, pass)
}

/// A path with its leading slashes taken off.
pub open spec fn trim_slashes(p: Seq<char>) -> Seq<char>
    decreases p.len(),
{
    if p.len() > 0 && p[0] == '/' {
        trim_slashes(p.subrange(1, p.len() as int))
    } else {
        p
    }
}

/// The path of an FTP URL as the server is asked for it, without leading slashes.
pub fn ftp_path(path: &str) -> (r: &str)
    ensures
        r@ == trim_slashes(path@),
{
    let n = path.unicode_len();
    let mut i: usize = 0;
    assert(path@.subrange(0, n as int) =~= path@);
    while i < n && path.get_char(i) == '/'
        invariant
            n == path@.len(),
            i <= n,
            trim_slashes(path@) == trim_slashes(path@.subrange(i as int, n as int)),
        decreases n - i,
    {
        proof {
            let rest = path@.subrange(i as int, n as int);
            assert(rest.subrange(1, rest.len() as int) =~= path@.subrange(i + 1, n as int));
        }
        i = i + 1;
    }
    proof {
        assert(path@.subrange(0, n as int) =~= path@);
    }
    path.substring_char(i, n)
}

/// How many bytes the next read of an FTP transfer asks for: at most 16 KiB
/// and no more than the segment still needs.
pub fn ftp_read_len(length: u64, read: u64) -> (r: u64)
    requires
        read <= length,
    ensures
        r == if length - read < 16384 {
            length - read
        } else {
            16384
        },
{
    if length - read < 16384 {
        length - read
    } else {
        16384
    }
}

/// Where a download over HTTP stands between requests: the URI to ask,
/// the page that led to it (sent as `Referer`) and the hops taken.
#[derive(Debug)]
pub struct HopState {
    pub uri: String,
    pub referer: Option<String>,
    pub hops: u32,
}

/// What an HTTP request was answered with, as the worker reads the response.
#[derive(Debug)]
pub enum HttpReply {
    /// A redirection, with the `Location` value when it could be read as text.
    Redirect(Option<String>),
    /// Any other status that is not a success, as the status line writes it.
    Failure(String),
    /// A success whose `Content-Type` names an HTML page: that value and the body.
    Html { content_type: String, body: Vec<u8> },
    /// Any other success: the `Content-Range` and `Content-Length` values
    /// that could be read as text, and the body.
    Direct { content_range: Option<String>, content_length: Option<String>, body: Vec<u8> },
}

/// The direct link a landing page leads to from `uri`, when it leads elsewhere.
pub open spec fn landing_target(uri: Seq<char>, body: Seq<u8>) -> Option<Seq<char>> {
    match direct_link(body_text(body, 262144int), uri) {
        Some(l) => if l != uri {
            Some(l)
        } else {
            None
        },
        None => None,
    }
}

/// Whether the start of a body holds an HTML page (see `looks_like_html`).
pub open spec fn sniffed_html(data: Seq<u8>) -> bool {
    data.len() > 5 && (contains_text(body_text(data, 512), "<!doctype html"@) || contains_text(
        body_text(data, 512),
        "<html"@,
    ))
}

/// Whether `after` moved on from `before` to `to`, `hops` hops being taken.
pub open spec fn moved(before: HopState, after: HopState, to: Seq<char>, hops: int) -> bool {
    &&& after.uri@ == to
    &&& after.referer matches Some(r) && r@ == before.uri@
    &&& after.hops == hops
}

/// Moves to `to`, the current URI becoming the referer.
fn move_to(state: &mut HopState, to: String, hops: u32)
    ensures
        moved(*old(state), *final(state), to@, hops as int),
{
    let mut next = to;
    std::mem::swap(&mut state.uri, &mut next);
    state.referer = Some(next);
    state.hops = hops;
}

/// Follows a redirect (see `follow_redirect`); more than `MAX_REDIRECTS`
/// hops fail with `too_many`.
fn redirect_hop(state: &mut HopState, location: &Option<String>, too_many: &str) -> (r: Result<(), Error>)
    ensures
        match redirect_of(
            old(state).uri@,
            match location {
                Some(s) => Some(s@),
                None => None,
            },
            old(state).hops as int,
            too_many@,
        ) {
            Ok((u, n)) => r is Ok && moved(*old(state), *final(state), u, n),
            Err(m) => r matches Err(Error::Protocol(e)) && e@ == m,
        },
{
    if state.hops >= MAX_REDIRECTS {
        return Err(Error::Protocol(str_to_string(too_many)));
    }
    let loc = match location {
        Some(l) => Some(l.as_str()),
        None => None,
    };
    match follow_redirect(state.uri.as_str(), loc, state.hops, too_many) {
        Ok((u, n)) => {
            move_to(state, u, n);
            Ok(())
        },
        Err(e) => Err(e),
    }
}

/// Follows the direct link of a landing page, if it leads elsewhere; else
/// fails with `stuck`.
fn landing_hop(state: &mut HopState, body: &Vec<u8>, stuck: String) -> (r: Result<(), Error>)
    requires
        old(state).hops < u32::MAX,
    ensures
        match landing_target(old(state).uri@, body@) {
            Some(l) => r is Ok && moved(*old(state), *final(state), l, old(state).hops + 1),
            None => r matches Err(Error::Protocol(e)) && e@ == stuck@,
        },
{
    let text = landing_page_text(body.as_slice());
    match find_direct_link(text.as_str(), state.uri.as_str()) {
        Some(l) => {
            if text_eq(l.as_str(), state.uri.as_str()) {
                Err(Error::Protocol(stuck))
            } else {
                let n = state.hops + 1;
                move_to(state, l, n);
                Ok(())
            }
        },
        None => Err(Error::Protocol(stuck)),
    }
}

/// Decides what a segment fetch does with a response: a redirect is
/// followed (at most `MAX_REDIRECTS` hops), a landing page is left for its
/// direct link, an error status fails the fetch, and a body is the data
/// unless it turns out to be an HTML page. `None` asks for another request
/// with the new state.
pub fn fetch_step(state: &mut HopState, reply: HttpReply) -> (r: Result<Option<Vec<u8>>, Error>)
    requires
        old(state).hops < u32::MAX,
    ensures
        match reply {
            HttpReply::Redirect(loc) => match redirect_of(
                old(state).uri@,
                match loc {
                    Some(s) => Some(s@),
                    None => None,
                },
                old(state).hops as int,
                "Too many redirects (loop detected)"@,
            ) {
                Ok((u, n)) => r matches Ok(None) && moved(*old(state), *final(state), u, n),
                Err(m) => r matches Err(Error::Protocol(e)) && e@ == m,
            },
            HttpReply::Failure(status) => r matches Err(Error::Protocol(e)) && e@
                == "Server returned error: "@ + status@,
            HttpReply::Html { content_type, body } => match landing_target(old(state).uri@, body@) {
                Some(l) => r matches Ok(None) && moved(*old(state), *final(state), l, old(state).hops + 1),
                None => r matches Err(Error::Protocol(e)) && e@ == "Invalid MIME type: "@ + lowercase(
                    content_type@,
                ) + ". Stuck on landing page."@,
            },
            HttpReply::Direct { body, .. } => if sniffed_html(body@) {
                r matches Err(Error::Protocol(e)) && e@ == "Detected HTML content in binary stream."@
            } else {
                r matches Ok(Some(d)) && d@ == body@
            },
        },
{
    match reply {
        HttpReply::Redirect(loc) => {
            match redirect_hop(state, &loc, "Too many redirects (loop detected)") {
                Ok(()) => Ok(None),
                Err(e) => Err(e),
            }
        },
        HttpReply::Failure(status) => {
            let mut m = str_to_string("Server returned error: ");
            push_str(&mut m, status.as_str());
            Err(Error::Protocol(m))
        },
        HttpReply::Html { content_type, body } => {
            let mut m = str_to_string("Invalid MIME type: ");
            let lower = to_lower(content_type.as_str());
            push_str(&mut m, lower.as_str());
            push_str(&mut m, ". Stuck on landing page.");
            match landing_hop(state, &body, m) {
                Ok(()) => Ok(None),
                Err(e) => Err(e),
            }
        },
        HttpReply::Direct { body, .. } => {
            if looks_like_html(body.as_slice()) {
                Err(Error::Protocol(str_to_string("Detected HTML content in binary stream.")))
            } else {
                Ok(Some(body))
            }
        },
    }
}

/// Decides what a metadata resolution does with a response (a request for
/// the first byte): redirects and landing pages are followed as by
/// `fetch_step`, and a direct answer gives the final URI and the length
/// its headers state.
pub fn resolve_step(state: &mut HopState, reply: HttpReply) -> (r: Result<Option<Metadata>, Error>)
    requires
        old(state).hops < u32::MAX,
    ensures
        match reply {
            HttpReply::Redirect(loc) => match redirect_of(
                old(state).uri@,
                match loc {
                    Some(s) => Some(s@),
                    None => None,
                },
                old(state).hops as int,
                "Too many redirects during resolution"@,
            ) {
                Ok((u, n)) => r matches Ok(None) && moved(*old(state), *final(state), u, n),
                Err(m) => r matches Err(Error::Protocol(e)) && e@ == m,
            },
            HttpReply::Failure(status) => r matches Err(Error::Protocol(e)) && e@
                == "Server returned error during resolution: "@ + status@,
            HttpReply::Html { body, .. } => match landing_target(old(state).uri@, body@) {
                Some(l) => r matches Ok(None) && moved(*old(state), *final(state), l, old(state).hops + 1),
                None => r matches Err(Error::Protocol(e)) && e@ == "Stuck on landing page during resolution"@,
            },
            HttpReply::Direct { content_range, content_length, .. } => r matches Ok(Some(m))
                && m.final_uri@ == old(state).uri@ && m.name is None && m.total_length
                == length_from_headers(
                match content_range {
                    Some(s) => Some(s@),
                    None => None,
                },
                match content_length {
                    Some(s) => Some(s@),
                    None => None,
                },
            ),
        },
{
    match reply {
        HttpReply::Redirect(loc) => {
            match redirect_hop(state, &loc, "Too many redirects during resolution") {
                Ok(()) => Ok(None),
                Err(e) => Err(e),
            }
        },
        HttpReply::Failure(status) => {
            let mut m = str_to_string("Server returned error during resolution: ");
            push_str(&mut m, status.as_str());
            Err(Error::Protocol(m))
        },
        HttpReply::Html { body, .. } => {
            match landing_hop(state, &body, str_to_string("Stuck on landing page during resolution")) {
                Ok(()) => Ok(None),
                Err(e) => Err(e),
            }
        },
        HttpReply::Direct { content_range, content_length, .. } => {
            let cr = match &content_range {
                Some(s) => Some(s.as_str()),
                None => None,
            };
            let cl = match &content_length {
                Some(s) => Some(s.as_str()),
                None => None,
            };
            let total_length = total_length_from_headers(cr, cl);
            Ok(Some(Metadata { final_uri: state.uri.clone(), total_length, name: None }))
        },
    }
}

/// The text after the last `/` of a path (all of it when there is none).
pub open spec fn after_last_slash(p: Seq<char>) -> Seq<char>
    decreases p.len(),
{
    if p.len() == 0 {
        p
    } else if p.last() == '/' {
        Seq::empty()
    } else {
        after_last_slash(p.drop_last()).push(p.last())
    }
}

/// The name a URL path gives its file: the last path segment, for a path
/// that has segments (one that starts with `/`).
pub open spec fn path_name(p: Seq<char>) -> Option<Seq<char>> {
    if p.len() > 0 && p[0] == '/' {
        Some(after_last_slash(p))
    } else {
        None
    }
}

/// The name a download takes from its URI: the last segment of its path,
/// or `download.bin` when the URI does not parse or that segment is empty.
pub open spec fn file_name_of(uri: Seq<char>) -> Seq<char> {
    match url_parse(uri) {
        Ok(v) => match path_name(v.path) {
            Some(n) => if n.len() > 0 {
                n
            } else {
                "download.bin"@
            },
            None => "download.bin"@,
        },
        Err(_) => "download.bin"@,
    }
}

/// The file name the command line gives a download of `uri`.
pub fn default_file_name(uri: &str) -> (r: String)
    ensures
        r@ == file_name_of(uri@),
{
    let fallback = str_to_string("download.bin");
    match url_parts(uri) {
        Ok(p) => match last_segment(p.path.as_str()) {
            Some(n) => {
                if n.as_str().is_empty() {
                    fallback
                } else {
                    n
                }
            },
            None => fallback,
        },
        Err(_) => fallback,
    }
}

/// The last segment of a path that has segments.
fn last_segment(path: &str) -> (r: Option<String>)
    ensures
        opt_text(r) == path_name(path@),
{
    let n = path.unicode_len();
    if n == 0 || path.get_char(0) != '/' {
        return None;
    }
    let mut i: usize = n;
    assert(path@.subrange(0, n as int) =~= path@);
    assert(path@ + path@.subrange(n as int, n as int) =~= path@);
    while i > 0 && path.get_char(i - 1) != '/'
        invariant
            n == path@.len(),
            0 < n,
            1 <= i <= n,
            path@[0] == '/',
            after_last_slash(path@) == after_last_slash(path@.subrange(0, i as int)) + path@.subrange(
                i as int,
                n as int,
            ),
        decreases i,
    {
        proof {
            let pre = path@.subrange(0, i as int);
            assert(pre.drop_last() =~= path@.subrange(0, i - 1));
            assert(after_last_slash(pre) == after_last_slash(pre.drop_last()).push(pre.last()));
            assert(after_last_slash(pre.drop_last()).push(pre.last()) + path@.subrange(i as int, n as int)
                =~= after_last_slash(pre.drop_last()) + path@.subrange(i - 1, n as int));
        }
        i = i - 1;
    }
    proof {
        let pre = path@.subrange(0, i as int);
        assert(pre.last() == '/');
        assert(after_last_slash(pre) =~= Seq::<char>::empty());
        assert(Seq::<char>::empty() + path@.subrange(i as int, n as int) =~= path@.subrange(i as int, n as int));
    }
    Some(str_to_string(path.substring_char(i, n)))
}

/// Where an FTP download goes: server, port, login, the path as the server
/// is asked for it, and the file's name.
#[derive(Debug)]
pub struct FtpEndpoint {
    pub host: String,
    pub port: u16,
    pub user: String,
    pub password: String,
    pub path: String,
    pub name: Option<String>,
}

/// Reads an FTP URL: its host (required), its port (21 by default), the
/// login (see `ftp_login`), the path without leading slashes and the last
/// path segment as the file's name.
pub fn ftp_endpoint(uri: &str) -> (r: Result<FtpEndpoint, Error>)
    ensures
        match url_parse(uri@) {
            Err(m) => r matches Err(Error::Protocol(e)) && e@ == "Invalid FTP URL: "@ + m,
            Ok(v) => match v.host {
                None => r matches Err(Error::Protocol(e)) && e@ == "Missing host in FTP URL"@,
                Some(h) => r matches Ok(ep) && ep.host@ == h && ep.port == (match v.port {
                    Some(p) => p,
                    None => 21u16,
                }) && ep.user@ == (if v.username.len() == 0 {
                    "anonymous"@
                } else {
                    v.username
                }) && ep.password@ == (match v.password {
                    Some(p) => p,
                    None => "anonymous@aura.rs"@,
                }) && ep.path@ == trim_slashes(v.path) && opt_text(ep.name) == path_name(v.path),
            },
        },
{
    let parts = match url_parts(uri) {
        Ok(p) => p,
        Err(m) => {
            let mut e = str_to_string("Invalid FTP URL: ");
            push_str(&mut e, m.as_str());
            return Err(Error::Protocol(e));
        },
    };
    let host = match &parts.host {
        Some(h) => h.clone(),
        None => {
            return Err(Error::Protocol(str_to_string("Missing host in FTP URL")));
        },
    };
    let port = match parts.port {
        Some(p) => p,
        None => 21,
    };
    let password = match &parts.password {
        Some(p) => Some(p.as_str()),
        None => None,
    };
    let (user, password) = ftp_login(parts.username.as_str(), password);
    let path = str_to_string(ftp_path(parts.path.as_str()));
    let name = last_segment(parts.path.as_str());
    Ok(FtpEndpoint { host, port, user, password, path, name })
}

} // verus!
