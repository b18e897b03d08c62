//! URLs of the form `scheme://host[:port]/path`.

use vstd::prelude::*;
use vstd::string::StringExecFns;
use crate::error::FetchError;
use crate::text::{
    chars_of, clone_option, contains, find_in, is_first_occurrence, lemma_split_at_char,
    lemma_split_at_pattern, occurs_at, option_view, split_at_first, split_once, starts_once,
    str_eq,
};

verus! {

/// A URL in its parts. The port is kept as text, as it was written; the
/// query is never filled, and stays in the path. Whether the scheme is one
/// that the client speaks is not asked before an address is needed.
#[derive(Debug, PartialEq)]
pub struct URL {
    pub scheme: String,
    pub host: String,
    pub port: Option<String>,
    pub path: String,
    pub query: Option<String>,
}

/// What a `URL` holds, as character sequences.
pub struct UrlView {
    pub scheme: Seq<char>,
    pub host: Seq<char>,
    pub port: Option<Seq<char>>,
    pub path: Seq<char>,
    pub query: Option<Seq<char>>,
}

impl View for URL {
    type V = UrlView;

    open spec fn view(&self) -> UrlView {
        UrlView {
            scheme: self.scheme@,
            host: self.host@,
            port: option_view(self.port),
            path: self.path@,
            query: option_view(self.query),
        }
    }
}

impl Clone for URL {
    fn clone(&self) -> (r: URL)
        ensures
            r@ == self@,
    {
        URL {
            scheme: self.scheme.clone(),
            host: self.host.clone(),
            port: clone_option(&self.port),
            path: self.path.clone(),
            query: clone_option(&self.query),
        }
    }
}

/// `://`, which ends the scheme.
pub open spec fn scheme_separator() -> Seq<char> {
    seq![':', '/', '/']
}

/// `/`, which begins the path.
pub open spec fn slash() -> Seq<char> {
    seq!['/']
}

/// `:`, which stands between host and port.
pub open spec fn colon() -> Seq<char> {
    seq![':']
}

/// `s` itself where it holds a `/`, else `s` with a `/` after it.
pub open spec fn with_slash(s: Seq<char>) -> Seq<char> {
    if contains(s, slash()) {
        s
    } else {
        s + slash()
    }
}

/// The URL that a text stands for, if it stands for one.
///
/// The scheme is what stands before the first `://`. Of what follows it,
/// the part before the first `/` is the host, with a port after the first
/// `:` in it if there is one, and the path is the rest, the `/` included. A
/// text without any `/` after the scheme has the path `/`.
pub open spec fn parse_spec(raw: Seq<char>) -> Option<UrlView> {
    match split_once(raw, scheme_separator()) {
        None => None,
        Some((scheme, rest)) => {
            let (authority, tail) = split_once(with_slash(rest), slash())->0;
            let path = slash() + tail;
            match split_once(authority, colon()) {
                Some((host, port)) => Some(
                    UrlView { scheme, host, port: Some(port), path, query: None },
                ),
                None => Some(UrlView { scheme, host: authority, port: None, path, query: None }),
            }
        },
    }
}

/// The port that a scheme stands for where the URL names none.
pub open spec fn default_port(scheme: Seq<char>) -> Option<Seq<char>> {
    if scheme == "http"@ {
        Some("80"@)
    } else if scheme == "https"@ {
        Some("443"@)
    } else {
        None
    }
}

/// The address to connect to for a URL, `host:port`, where its scheme is one
/// that has a default port.
pub open spec fn domain_spec(u: UrlView) -> Option<Seq<char>> {
    match default_port(u.scheme) {
        None => None,
        Some(d) => Some(
            u.host + ":"@ + match u.port {
                Some(p) => p,
                None => d,
            },
        ),
    }
}

/// A text that ends in `/` holds a `/`, and no earlier one if the text
/// before it holds none.
pub proof fn lemma_with_slash(s: Seq<char>)
    ensures
        contains(with_slash(s), slash()),
        !contains(s, slash()) ==> is_first_occurrence(s + slash(), slash(), s.len() as int),
{
    if !contains(s, slash()) {
        lemma_split_at_char(s, '/', Seq::empty());
    }
}

/// Puts a `/` after `s` unless `s` holds one already.
pub fn maybe_add_slash(s: &str) -> (r: String)
    ensures
        r@ == with_slash(s@),
{
    let v = chars_of(s);
    let pat: Vec<char> = vec!['/'];
    assert(pat@ =~= slash());
    assert(v@.subrange(0, v.len() as int) =~= v@);
    match find_in(&v, 0, v.len(), &pat) {
        Some(_) => s.to_owned(),
        None => {
            let mut r = s.to_owned();
            proof {
                reveal_strlit("/");
            }
            r.append("/");
            r
        },
    }
}

impl URL {
    /// Reads a URL from its text. Fails on a text without `://`, and on no
    /// other.
    pub fn parse(raw: &str) -> (r: Result<URL, FetchError>)
        ensures
            match r {
                Ok(u) => parse_spec(raw@) == Some(u@),
                Err(e) => e == FetchError::MalformedURL && parse_spec(raw@) is None,
            },
            r is Err <==> !contains(raw@, scheme_separator()),
    {
        let sep: Vec<char> = vec![':', '/', '/'];
        let slash_pat: Vec<char> = vec!['/'];
        let colon_pat: Vec<char> = vec![':'];
        assert(slash_pat@ =~= slash());
        assert(colon_pat@ =~= colon());
        let (scheme, rest) = match split_at_first(raw, &sep) {
            None => {
                return Err(FetchError::MalformedURL);
            },
            Some(parts) => parts,
        };
        let fixed = maybe_add_slash(rest.as_str());
        proof {
            lemma_with_slash(rest@);
        }
        let (authority, tail) = match split_at_first(fixed.as_str(), &slash_pat) {
            None => {
                // does not happen: there is a `/` by now
                return Err(FetchError::MalformedURL);
            },
            Some(parts) => parts,
        };
        proof {
            reveal_strlit("/");
        }
        assert("/"@ =~= slash());
        let mut path = "/".to_owned();
        path.append(tail.as_str());
        let (host, port) = match split_at_first(authority.as_str(), &colon_pat) {
            Some((host, port)) => (host, Some(port)),
            None => (authority, None),
        };
        Ok(URL { scheme, host, port, path, query: None })
    }

    /// The address to connect to: the host, a colon and the port, which is
    /// 80 for `http` and 443 for `https` where the URL names none. Fails on
    /// any other scheme.
    pub fn domain(&self) -> (r: Result<String, FetchError>)
        ensures
            match r {
                Ok(d) => domain_spec(self@) == Some(d@),
                Err(e) => e == FetchError::UnsupportedScheme && domain_spec(self@) is None,
            },
    {
        let fallback = if str_eq(self.scheme.as_str(), "http") {
            "80"
        } else if str_eq(self.scheme.as_str(), "https") {
            "443"
        } else {
            return Err(FetchError::UnsupportedScheme);
        };
        let mut d = self.host.clone();
        d.append(":");
        match &self.port {
            Some(p) => d.append(p.as_str()),
            None => d.append(fallback),
        }
        Ok(d)
    }
}

/// A scheme that holds no `://` ends where the first `://` of the whole text
/// begins.
pub proof fn lemma_scheme_boundary(scheme: Seq<char>, rest: Seq<char>)
    requires
        !contains(scheme, scheme_separator()),
    ensures
        split_once(scheme + scheme_separator() + rest, scheme_separator()) == Some((scheme, rest)),
{
    lemma_split_at_pattern(scheme, scheme_separator(), rest);
}

/// Parsing recovers the parts of a URL that names no port: a scheme without
/// `://`, a host without `/` or `:`, and a path that begins with `/`.
pub proof fn lemma_parse_recovers_parts(scheme: Seq<char>, host: Seq<char>, path: Seq<char>)
    requires
        !contains(scheme, scheme_separator()),
        !contains(host, slash()),
        !contains(host, colon()),
        path.len() > 0 && path[0] == '/',
    ensures
        parse_spec(scheme + scheme_separator() + host + path) == Some(
            UrlView { scheme, host, port: None, path, query: None },
        ),
{
    let rest = host + path;
    assert(scheme + scheme_separator() + host + path =~= scheme + scheme_separator() + rest);
    lemma_scheme_boundary(scheme, rest);
    let tail = path.skip(1);
    assert(rest =~= host + slash() + tail);
    lemma_split_at_char(host, '/', tail);
    assert(slash() + tail =~= path);
}

/// Parsing recovers the parts of a URL that names a port: a scheme without
/// `://`, a host without `/` or `:`, a port without `/`, and a path that
/// begins with `/`.
pub proof fn lemma_parse_recovers_parts_with_port(
    scheme: Seq<char>,
    host: Seq<char>,
    port: Seq<char>,
    path: Seq<char>,
)
    requires
        !contains(scheme, scheme_separator()),
        !contains(host, slash()),
        !contains(host, colon()),
        !contains(port, slash()),
        path.len() > 0 && path[0] == '/',
    ensures
        parse_spec(scheme + scheme_separator() + host + colon() + port + path) == Some(
            UrlView { scheme, host, port: Some(port), path, query: None },
        ),
{
    let authority = host + colon() + port;
    let rest = authority + path;
    assert(scheme + scheme_separator() + host + colon() + port + path =~= scheme
        + scheme_separator() + rest);
    lemma_scheme_boundary(scheme, rest);
    let tail = path.skip(1);
    assert(rest =~= authority + slash() + tail);
    assert(!contains(authority, slash())) by {
        if contains(authority, slash()) {
            let j = choose|j: int| occurs_at(authority, slash(), j);
            let w = authority.subrange(j, j + 1);
            if j < host.len() {
                assert(host.subrange(j, j + 1) =~= w);
                assert(occurs_at(host, slash(), j));
            } else if j == host.len() {
                assert(w[0] == authority[j]);
            } else {
                let k = j - host.len() - 1;
                assert(port.subrange(k, k + 1) =~= w);
                assert(occurs_at(port, slash(), k));
            }
        }
    }
    lemma_split_at_char(authority, '/', tail);
    assert(slash() + tail =~= path);
    lemma_split_at_char(host, ':', port);
}

/// Every parsed URL has a path that begins with `/`, and no query.
pub proof fn lemma_parsed_shape(raw: Seq<char>)
    requires
        parse_spec(raw) is Some,
    ensures
        parse_spec(raw)->0.path.len() > 0,
        parse_spec(raw)->0.path[0] == '/',
        parse_spec(raw)->0.query is None,
{
}

/// A text without `://` is no URL, and every text with it is one.
pub proof fn lemma_parse_fails_without_separator(raw: Seq<char>)
    ensures
        parse_spec(raw) is None <==> !contains(raw, scheme_separator()),
{
}

/// Without a port, the address of an `http` URL ends in `:80` and that of an
/// `https` URL in `:443`.
pub proof fn lemma_domain_default_ports(u: UrlView)
    requires
        u.port is None,
    ensures
        u.scheme == "http"@ ==> domain_spec(u) == Some(u.host + ":80"@),
        u.scheme == "https"@ ==> domain_spec(u) == Some(u.host + ":443"@),
{
    reveal_strlit("http");
    reveal_strlit("https");
    reveal_strlit(":");
    reveal_strlit("80");
    reveal_strlit("443");
    reveal_strlit(":80");
    reveal_strlit(":443");
    assert("http"@.len() != "https"@.len());
}

} // verus!
