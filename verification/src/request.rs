//! Requests, and the text in which they go over the wire.

use vstd::prelude::*;
use vstd::string::StringExecFns;
use crate::headers::{distinct_keys, has_key, Entries, Headers};
use crate::text::{clone_option, lowercase_of, option_view, str_eq, to_lowercase};
use crate::url::{UrlView, URL};

verus! {

/// The request methods.
#[derive(Debug, Clone, Copy, PartialEq, Eq, Structural)]
pub enum Method {
    GET,
    POST,
}

/// A method as it is written in a request.
pub open spec fn method_name(m: Method) -> Seq<char> {
    match m {
        Method::GET => "GET"@,
        Method::POST => "POST"@,
    }
}

impl Method {
    /// The method as it is written in a request.
    pub fn name(&self) -> (r: &'static str)
        ensures
            r@ == method_name(*self),
    {
        match self {
            Method::GET => "GET",
            Method::POST => "POST",
        }
    }
}

/// A request: where it goes, how, and with what.
#[derive(Debug, PartialEq)]
pub struct Request {
    pub url: URL,
    pub headers: Option<Headers>,
    pub method: Method,
    pub body: Option<String>,
}

/// What a `Request` holds, as character sequences.
pub struct RequestView {
    pub url: UrlView,
    pub headers: Option<Entries>,
    pub method: Method,
    pub body: Option<Seq<char>>,
}

/// What optional headers hold.
pub open spec fn headers_view(h: Option<Headers>) -> Option<Entries> {
    match h {
        Some(x) => Some(x@),
        None => None,
    }
}

impl View for Request {
    type V = RequestView;

    open spec fn view(&self) -> RequestView {
        RequestView {
            url: self.url@,
            headers: headers_view(self.headers),
            method: self.method,
            body: option_view(self.body),
        }
    }
}

impl Clone for Request {
    fn clone(&self) -> (r: Request)
        ensures
            r@ == self@,
    {
        Request {
            url: self.url.clone(),
            headers: match &self.headers {
                Some(h) => Some(h.clone()),
                None => None,
            },
            method: self.method,
            body: clone_option(&self.body),
        }
    }
}

/// Two header names are the same but for the case of their letters.
pub open spec fn same_name(a: Seq<char>, b: Seq<char>) -> bool {
    lowercase_of(a) == lowercase_of(b)
}

/// Some entry of `s` has the name `k`, the case of letters set aside.
pub open spec fn names(s: Entries, k: Seq<char>) -> bool {
    exists|i: int| 0 <= i < s.len() && same_name((#[trigger] s[i]).0, k)
}

/// What this client calls itself.
pub const USER_AGENT: &'static str =
    "Mozilla/5.0 (compatible; MyBrowser/1.0; +https://github.com/agentbellnorm/browser-engineering)";

/// The header by which this client names itself.
pub open spec fn user_agent_header() -> (Seq<char>, Seq<char>) {
    ("user-agent"@, USER_AGENT@)
}

/// The header that asks the server to close the connection after its
/// response.
pub open spec fn connection_header() -> (Seq<char>, Seq<char>) {
    ("connection"@, "close"@)
}

/// The headers that go out with a request: the two that every request
/// has, each unless the caller names it too, and then the caller's own.
pub open spec fn merged_headers(caller: Option<Entries>) -> Entries {
    let own = match caller {
        Some(c) => c,
        None => Entries::empty(),
    };
    let agent = if names(own, user_agent_header().0) {
        Entries::empty()
    } else {
        seq![user_agent_header()]
    };
    let connection = if names(own, connection_header().0) {
        Entries::empty()
    } else {
        seq![connection_header()]
    };
    agent + connection + own
}

/// Tells whether `headers` holds `name`, the case of letters set aside.
fn holds_name(headers: &Headers, name: &str) -> (r: bool)
    ensures
        r == names(headers@, name@),
{
    let wanted = to_lowercase(name);
    let n = headers.len();
    let mut i: usize = 0;
    while i < n
        invariant
            i <= n,
            n == headers@.len(),
            wanted@ == lowercase_of(name@),
            forall|j: int| 0 <= j < i ==> !same_name((#[trigger] headers@[j]).0, name@),
        decreases n - i,
    {
        let lowered = to_lowercase(headers.key_at(i).as_str());
        if str_eq(lowered.as_str(), wanted.as_str()) {
            return true;
        }
        i += 1;
    }
    false
}

/// Merges the caller's headers into the two that every request has. The
/// caller's win: a default is left out where the caller names the same
/// header, in whatever case.
pub fn with_default_headers(headers: &Option<Headers>) -> (r: Headers)
    ensures
        r@ == merged_headers(headers_view(*headers)),
        distinct_keys(r@),
{
    let mut merged = Headers::new();
    proof {
        reveal_strlit("user-agent");
        reveal_strlit("connection");
    }
    assert(user_agent_header().0 != connection_header().0) by {
        assert("user-agent"@[0] != "connection"@[0]);
    }
    match headers {
        None => {
            merged.insert("user-agent".to_owned(), USER_AGENT.to_owned());
            merged.insert("connection".to_owned(), "close".to_owned());
        },
        Some(own) => {
            let n = own.len();
            if !holds_name(own, "user-agent") {
                merged.insert("user-agent".to_owned(), USER_AGENT.to_owned());
            }
            if !holds_name(own, "connection") {
                merged.insert("connection".to_owned(), "close".to_owned());
            }
            let ghost defaults = merged@;
            let mut i: usize = 0;
            while i < n
                invariant
                    i <= n,
                    n == own@.len(),
                    distinct_keys(own@),
                    merged@ == defaults + own@.take(i as int),
                    forall|j: int, k: int|
                        0 <= j < defaults.len() && 0 <= k < own@.len() ==> (
                        #[trigger] defaults[j]).0 != (#[trigger] own@[k]).0,
                decreases n - i,
            {
                let ghost before = merged@;
                let ghost key = own@[i as int].0;
                assert(!has_key(before, key)) by {
                    if has_key(before, key) {
                        let j = choose|j: int|
                            0 <= j < before.len() && (#[trigger] before[j]).0 == key;
                        if j < defaults.len() {
                            assert(before[j] == defaults[j]);
                        } else {
                            assert(before[j] == own@[j - defaults.len()]);
                        }
                    }
                }
                merged.insert(own.key_at(i).clone(), own.value_at(i).clone());
                i += 1;
            }
        },
    }
    merged
}

/// Headers as they are written in a request: for each, in order, the name,
/// a colon and a space, the value, and the end of the line.
pub open spec fn header_lines(s: Entries) -> Seq<char>
    decreases s.len(),
{
    if s.len() == 0 {
        Seq::empty()
    } else {
        header_lines(s.drop_last()) + s.last().0 + ": "@ + s.last().1 + "\r\n"@
    }
}

/// A request as it goes over the wire: the request line, the `Host` header,
/// the merged headers, and an empty line. Nothing follows the empty line.
pub open spec fn request_text(r: RequestView) -> Seq<char> {
    method_name(r.method) + " "@ + r.url.path + " HTTP/1.1\r\n"@ + "Host: "@ + r.url.host
        + "\r\n"@ + header_lines(merged_headers(r.headers)) + "\r\n"@
}

/// Writes a request out as it goes over the wire.
pub fn raw_http_request(request: &Request) -> (r: String)
    ensures
        r@ == request_text(request@),
{
    let merged = with_default_headers(&request.headers);
    let mut text = String::new();
    text.append(request.method.name());
    text.append(" ");
    text.append(request.url.path.as_str());
    text.append(" HTTP/1.1\r\n");
    text.append("Host: ");
    text.append(request.url.host.as_str());
    text.append("\r\n");
    let ghost head = text@;
    assert(head =~= method_name(request.method) + " "@ + request.url.path@ + " HTTP/1.1\r\n"@
        + "Host: "@ + request.url.host@ + "\r\n"@);
    let n = merged.len();
    let mut i: usize = 0;
    while i < n
        invariant
            i <= n,
            n == merged@.len(),
            text@ =~= head + header_lines(merged@.take(i as int)),
        decreases n - i,
    {
        let ghost grown = merged@.take(i + 1);
        assert(grown.drop_last() =~= merged@.take(i as int));
        text.append(merged.key_at(i).as_str());
        text.append(": ");
        text.append(merged.value_at(i).as_str());
        text.append("\r\n");
        i += 1;
    }
    assert(merged@.take(n as int) =~= merged@);
    text.append("\r\n");
    text
}

} // verus!
