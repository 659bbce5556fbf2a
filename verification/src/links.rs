//! URLs as the `url` crate reads and joins them.
use vstd::prelude::*;
use crate::metalink::opt_text;

verus! {

/// What the `url` crate reads in a URI.
pub struct UrlView {
    /// The scheme.
    pub scheme: Seq<char>,
    /// The query pairs, percent-decoded, in order.
    pub pairs: Seq<(Seq<char>, Seq<char>)>,
    /// The host, as text.
    pub host: Option<Seq<char>>,
    /// The port written in the URI (none when it is the scheme's default).
    pub port: Option<u16>,
    /// The user name (empty when there is none).
    pub username: Seq<char>,
    /// The password.
    pub password: Option<Seq<char>>,
    /// The path.
    pub path: Seq<char>,
}

/// What the `url` crate reads in a URI, or the text of the parse error.
pub uninterp spec fn url_parse(uri: Seq<char>) -> Result<UrlView, Seq<char>>;

/// The text of a list of key-value pairs.
pub open spec fn pair_views(p: Seq<(String, String)>) -> Seq<(Seq<char>, Seq<char>)> {
    p.map_values(|kv: (String, String)| (kv.0@, kv.1@))
}

/// The parts of a URI that the library reads.
#[derive(Debug)]
pub struct UrlParts {
    pub scheme: String,
    pub pairs: Vec<(String, String)>,
    pub host: Option<String>,
    pub port: Option<u16>,
    pub username: String,
    pub password: Option<String>,
    pub path: String,
}

impl View for UrlParts {
    type V = UrlView;

    open spec fn view(&self) -> UrlView {
        UrlView {
            scheme: self.scheme@,
            pairs: pair_views(self.pairs@),
            host: opt_text(self.host),
            port: self.port,
            username: self.username@,
            password: opt_text(self.password),
            path: self.path@,
        }
    }
}

/// `url::Url::parse(uri)`, read as its `scheme()`, `query_pairs()`,
/// `host_str()`, `port()`, `username()`, `password()` and `path()`; the
/// error as its message.
#[verifier::external_body]
pub(crate) fn url_parts(uri: &str) -> (r: Result<UrlParts, String>)
    ensures
        match url_parse(uri@) {
            Ok(v) => r matches Ok(p) && p@ == v,
            Err(msg) => r matches Err(m) && m@ == msg,
        },
{
    match url::Url::parse(uri) {
        Ok(u) => Ok(UrlParts {
            scheme: u.scheme().to_string(),
            pairs: u.query_pairs().map(|(k, v)| (k.into_owned(), v.into_owned())).collect(),
            host: u.host_str().map(|h| h.to_string()),
            port: u.port(),
            username: u.username().to_string(),
            password: u.password().map(|p| p.to_string()),
            path: u.path().to_string(),
        }),
        Err(e) => Err(e.to_string()),
    }
}

/// What the `url` crate makes of `link` read against `base`: the joined
/// URL's text, path and query, or the message of the error met in reading
/// the base or in joining.
pub uninterp spec fn url_join(base: Seq<char>, link: Seq<char>) -> Result<
    (Seq<char>, Seq<char>, Option<Seq<char>>),
    Seq<char>,
>;

/// `url::Url::parse(base)` and then `join(link)`, read as the joined URL's
/// text (`to_string`), `path()` and `query()`; an error as its message. A
/// base that does not parse fails the join with the same message as the
/// parse alone.
#[verifier::external_body]
pub(crate) fn join_url(base: &str, link: &str) -> (r: Result<(String, String, Option<String>), String>)
    ensures
        match url_join(base@, link@) {
            Ok((u, p, q)) => r matches Ok((a, b, c)) && a@ == u && b@ == p && opt_text(c) == q,
            Err(m) => r matches Err(e) && e@ == m,
        },
        r is Ok ==> url_parse(base@) is Ok,
        r matches Err(e) ==> (url_parse(base@) is Err ==> e@ == url_parse(base@)->Err_0),
{
    match url::Url::parse(base) {
        Err(e) => Err(e.to_string()),
        Ok(b) => match b.join(link) {
            Ok(u) => Ok((u.to_string(), u.path().to_string(), u.query().map(|q| q.to_string()))),
            Err(e) => Err(e.to_string()),
        },
    }
}

} // verus!
