//! Settings of the command-line client and how it chooses its output format.

use vstd::prelude::*;
use vstd::string::StrSliceExecFns;
use crate::text::{has_prefix, owned, push_char, push_str, starts_with, str_eq, trim_end_slashes, trim_trailing_slashes};

verus! {

/// The manager address used when none is configured.
pub const DEFAULT_API_URL: &'static str = "http://127.0.0.1:18080";

/// The client's saved settings.
#[derive(Debug, Clone, PartialEq, Eq)]
pub struct Config {
    pub api_url: String,
    pub token: Option<String>,
    pub default_output: String,
}

/// The manager address used when none is configured, as an owned string.
pub fn default_api_url() -> (s: String)
    ensures
        s@ == DEFAULT_API_URL@,
{
    owned(DEFAULT_API_URL)
}

/// The output format used when none is configured.
pub fn default_output() -> (s: String)
    ensures
        s@ == "table"@,
{
    owned("table")
}

impl Default for Config {
    /// The default address, no token, table output.
    fn default() -> (c: Self)
        ensures
            c.api_url@ == DEFAULT_API_URL@,
            c.token is None,
            c.default_output@ == "table"@,
    {
        Config { api_url: default_api_url(), token: None, default_output: default_output() }
    }
}

/// How results are printed.
#[derive(Debug, Clone, Copy, PartialEq, Eq, Structural)]
pub enum OutputMode {
    Table,
    Json,
}

impl OutputMode {
    /// `json` selects JSON output; any other configured value selects tables.
    pub fn from_config(value: &str) -> (m: Self)
        ensures
            m == (if value@ == "json"@ { OutputMode::Json } else { OutputMode::Table }),
    {
        if str_eq(value, "json") {
            OutputMode::Json
        } else {
            OutputMode::Table
        }
    }
}

/// `s` without its leading `/` characters, as `trim_start_matches('/')` leaves it.
pub open spec fn trim_leading_slashes(s: Seq<char>) -> Seq<char>
    decreases s.len(),
{
    if s.len() > 0 && s[0] == '/' {
        trim_leading_slashes(s.drop_first())
    } else {
        s
    }
}

/// Removes leading `/` characters.
pub fn trim_start_slashes(s: &str) -> (t: String)
    ensures
        t@ == trim_leading_slashes(s@),
{
    let n = s.unicode_len();
    let mut start: usize = 0;
    assert(s@.subrange(0, n as int) =~= s@);
    while start < n && s.get_char(start) == '/'
        invariant
            0 <= start <= n,
            n == s@.len(),
            trim_leading_slashes(s@.subrange(start as int, n as int)) == trim_leading_slashes(s@),
        decreases n - start,
    {
        assert(s@.subrange(start as int, n as int).drop_first() =~= s@.subrange(start + 1, n as int));
        start = start + 1;
    }
    assert(trim_leading_slashes(s@.subrange(start as int, n as int)) == s@.subrange(start as int, n as int));
    let mut t = String::new();
    let mut i: usize = start;
    while i < n
        invariant
            start <= i <= n,
            n == s@.len(),
            t@ == s@.subrange(start as int, i as int),
        decreases n - i,
    {
        push_char(&mut t, s.get_char(i));
        assert(s@.subrange(start as int, i as int).push(s@[i as int]) =~= s@.subrange(start as int, i + 1));
        i = i + 1;
    }
    t
}

/// The manager's address, as the client talks to it.
#[derive(Debug, Clone)]
pub struct Client {
    base_url: String,
    token: Option<String>,
}

impl Client {
    /// The address requests go to, without trailing slashes.
    pub closed spec fn base(&self) -> Seq<char> {
        self.base_url@
    }

    /// The bearer token sent with requests, if any.
    pub closed spec fn bearer(&self) -> Option<Seq<char>> {
        match self.token {
            Some(t) => Some(t@),
            None => None,
        }
    }

    /// A client for the manager at `base_url`, authenticating with `token` when given.
    pub fn new(base_url: String, token: Option<String>) -> (c: Self)
        ensures
            c.base() == trim_trailing_slashes(base_url@),
            c.bearer() == (match token {
                Some(t) => Some(t@),
                None => None::<Seq<char>>,
            }),
    {
        Client { base_url: trim_end_slashes(base_url.as_str()), token }
    }

    /// The token requests carry.
    pub fn token(&self) -> (t: Option<&str>)
        ensures
            match t {
                Some(s) => self.bearer() == Some(s@),
                None => self.bearer() is None,
            },
    {
        match &self.token {
            Some(t) => Some(t.as_str()),
            None => None,
        }
    }

    /// The full URL of an API path: the base, one `/`, and the path without its leading slashes.
    pub fn url(&self, path: &str) -> (u: String)
        ensures
            u@ == self.base() + "/"@ + trim_leading_slashes(path@),
    {
        let p = trim_start_slashes(path);
        let mut u = owned(self.base_url.as_str());
        push_str(&mut u, "/");
        push_str(&mut u, p.as_str());
        u
    }

    /// The WebSocket URL of an API path: `https://` becomes `wss://` and
    /// `http://` becomes `ws://`; any other scheme is kept.
    pub fn ws_url(&self, path: &str) -> (u: String)
        ensures
            ({
                let url = self.base() + "/"@ + trim_leading_slashes(path@);
                u@ == if has_prefix(url, "https://"@) {
                    "wss://"@ + url.subrange(8, url.len() as int)
                } else if has_prefix(url, "http://"@) {
                    "ws://"@ + url.subrange(7, url.len() as int)
                } else {
                    url
                }
            }),
    {
        let url = self.url(path);
        proof {
            reveal_strlit("https://");
            reveal_strlit("http://");
        }
        if starts_with(url.as_str(), "https://") {
            let mut w = owned("wss://");
            push_rest(&mut w, url.as_str(), 8);
            w
        } else if starts_with(url.as_str(), "http://") {
            let mut w = owned("ws://");
            push_rest(&mut w, url.as_str(), 7);
            w
        } else {
            url
        }
    }
}

/// Appends the characters of `s` from position `from` on.
fn push_rest(w: &mut String, s: &str, from: usize)
    requires
        from <= s@.len(),
    ensures
        final(w)@ == old(w)@ + s@.subrange(from as int, s@.len() as int),
{
    let n = s.unicode_len();
    let ghost start = w@;
    let mut i: usize = from;
    while i < n
        invariant
            from <= i <= n,
            n == s@.len(),
            w@ == start + s@.subrange(from as int, i as int),
        decreases n - i,
    {
        push_char(w, s.get_char(i));
        assert(s@.subrange(from as int, i as int).push(s@[i as int]) =~= s@.subrange(from as int, i + 1));
        i = i + 1;
    }
}

/// Whether a byte is left as it is by URL encoding: ASCII letters, digits, `-`, `.`, `_` and `~`.
pub open spec fn url_safe(b: u8) -> bool {
    (48 <= b <= 57) || (65 <= b <= 90) || (97 <= b <= 122) || b == 45 || b == 46 || b == 95 || b == 126
}

/// The uppercase hexadecimal digit for `d < 16`.
pub open spec fn hex_upper(d: u8) -> char {
    if d < 10 {
        (48 + d) as char
    } else {
        (55 + d) as char
    }
}

/// Percent-encoding of bytes: safe bytes stay, every other byte becomes `%` and two uppercase hexadecimal digits.
pub open spec fn percent_encoded(bytes: Seq<u8>) -> Seq<char>
    decreases bytes.len(),
{
    if bytes.len() == 0 {
        Seq::empty()
    } else {
        let b = bytes.last();
        percent_encoded(bytes.drop_last()) + if url_safe(b) {
            seq![b as char]
        } else {
            seq!['%', hex_upper(b / 16), hex_upper(b % 16)]
        }
    }
}

/// Calls `urlencoding::encode`, which percent-encodes the UTF-8 bytes of
/// the text: alphanumerics and `-`, `_`, `.`, `~` stay, every other byte
/// becomes `%` followed by two uppercase hexadecimal digits.
#[verifier::external_body]
pub(crate) fn url_encode(s: &str) -> (e: String)
    ensures
        e@ == percent_encoded(encode_utf8_of(s@)),
{
    urlencoding::encode(s).into_owned()
}

/// The `key=value` pairs of the parameters that have a value, in order, values URL-encoded.
pub open spec fn query_pairs(params: Seq<(Seq<char>, Option<Seq<char>>)>) -> Seq<Seq<char>>
    decreases params.len(),
{
    if params.len() == 0 {
        Seq::empty()
    } else {
        let rest = query_pairs(params.drop_last());
        match params.last().1 {
            Some(v) => rest.push(params.last().0 + "="@ + percent_encoded(encode_utf8_of(v))),
            None => rest,
        }
    }
}

/// The UTF-8 bytes of a text.
pub open spec fn encode_utf8_of(s: Seq<char>) -> Seq<u8> {
    vstd::utf8::encode_utf8(s)
}

/// Texts joined with `sep` between them.
pub open spec fn joined(parts: Seq<Seq<char>>, sep: Seq<char>) -> Seq<char>
    decreases parts.len(),
{
    if parts.len() == 0 {
        Seq::empty()
    } else if parts.len() == 1 {
        parts[0]
    } else {
        joined(parts.drop_last(), sep) + sep + parts.last()
    }
}

/// The views of query parameters.
pub open spec fn param_views(params: Seq<(&str, Option<String>)>) -> Seq<(Seq<char>, Option<Seq<char>>)> {
    params.map_values(|p: (&str, Option<String>)| (p.0@, match p.1 {
        Some(v) => Some(v@),
        None => None,
    }))
}

/// An API path with the parameters that have a value appended as a query
/// string; the path alone when none has.
pub fn query_path(path: &str, params: &[(&str, Option<String>)]) -> (q: String)
    ensures
        ({
            let pairs = query_pairs(param_views(params@));
            q@ == if pairs.len() == 0 {
                path@
            } else {
                path@ + "?"@ + joined(pairs, "&"@)
            }
        }),
{
    let ghost ps = param_views(params@);
    let mut tail = String::new();
    let mut count: usize = 0;
    let mut i: usize = 0;
    while i < params.len()
        invariant
            0 <= i <= params@.len(),
            ps == param_views(params@),
            count == query_pairs(ps.subrange(0, i as int)).len(),
            tail@ == joined(query_pairs(ps.subrange(0, i as int)), "&"@),
            count <= i,
        decreases params@.len() - i,
    {
        let (key, value) = &params[i];
        proof {
            assert(ps.subrange(0, i + 1).drop_last() =~= ps.subrange(0, i as int));
            assert(ps.subrange(0, i + 1).last() == ps[i as int]);
        }
        match value {
            Some(v) => {
                let ghost before = tail@;
                let ghost old_pairs = query_pairs(ps.subrange(0, i as int));
                if count > 0 {
                    push_str(&mut tail, "&");
                }
                let ghost mid = tail@;
                push_str(&mut tail, key);
                push_str(&mut tail, "=");
                let e = url_encode(v.as_str());
                push_str(&mut tail, e.as_str());
                proof {
                    let pair = key@ + "="@ + percent_encoded(encode_utf8_of(v@));
                    assert(ps[i as int] == (key@, Some(v@)));
                    let new_pairs = query_pairs(ps.subrange(0, i + 1));
                    assert(new_pairs == old_pairs.push(pair));
                    assert(new_pairs.drop_last() =~= old_pairs);
                    assert(tail@ =~= mid + pair);
                    if count == 0 {
                        assert(old_pairs.len() == 0);
                        assert(new_pairs.len() == 1);
                        assert(mid =~= Seq::<char>::empty());
                    }
                }
                count = count + 1;
            },
            None => {},
        }
        i = i + 1;
    }
    assert(ps.subrange(0, params@.len() as int) =~= ps);
    if count == 0 {
        owned(path)
    } else {
        let mut q = owned(path);
        push_str(&mut q, "?");
        push_str(&mut q, tail.as_str());
        q
    }
}

} // verus!
