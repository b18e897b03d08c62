//! Responses, and how they are read from the text that a server sent.

use vstd::prelude::*;
use vstd::string::StrSliceExecFns;
use crate::error::FetchError;
use crate::headers::{has_key, insert, lemma_insert_keeps_names, Entries, Headers};
use crate::request::{Request, RequestView};
use crate::text::{
    chars_of, clone_option, contains, lemma_index_of_some, lemma_split_at_char,
    lemma_split_at_pattern, lowercase_of, option_view, parse_u16, parse_u16_spec, split_in,
    split_once, starts_once, substring, to_lowercase, trim, trim_range,
};
use crate::url::colon;

verus! {

/// A response, with the request that it answers.
#[derive(Debug, PartialEq)]
pub struct Response {
    pub status: u16,
    pub version: String,
    pub explanation: String,
    pub body: Option<String>,
    pub headers: Headers,
    pub request: Request,
}

/// What a `Response` holds, as character sequences.
pub struct ResponseView {
    pub status: u16,
    pub version: Seq<char>,
    pub explanation: Seq<char>,
    pub body: Option<Seq<char>>,
    pub headers: Entries,
    pub request: RequestView,
}

impl View for Response {
    type V = ResponseView;

    open spec fn view(&self) -> ResponseView {
        ResponseView {
            status: self.status,
            version: self.version@,
            explanation: self.explanation@,
            body: option_view(self.body),
            headers: self.headers@,
            request: self.request@,
        }
    }
}

impl Clone for Response {
    fn clone(&self) -> (r: Response)
        ensures
            r@ == self@,
    {
        Response {
            status: self.status,
            version: self.version.clone(),
            explanation: self.explanation.clone(),
            body: clone_option(&self.body),
            headers: self.headers.clone(),
            request: self.request.clone(),
        }
    }
}

/// The end of a line: a carriage return and a line feed.
pub open spec fn crlf() -> Seq<char> {
    seq!['\r', '\n']
}

/// A single space.
pub open spec fn space() -> Seq<char> {
    seq![' ']
}

/// What a status line says: the version before the first space, the status
/// code between the first space and the second, and after the second the
/// explanation, which may hold more spaces.
pub open spec fn status_line_spec(line: Seq<char>) -> Option<(Seq<char>, u16, Seq<char>)> {
    match split_once(line, space()) {
        None => None,
        Some((version, rest)) => match split_once(rest, space()) {
            None => None,
            Some((code, explanation)) => match parse_u16_spec(code) {
                None => None,
                Some(status) => Some((version, status, explanation)),
            },
        },
    }
}

/// Takes a status line apart. Fails where there is no line, where the line
/// has fewer than three fields, and where the second field is no number
/// below 65536.
pub fn split_response_status_line<'a>(status_line: Option<&'a str>) -> (r: Result<
    (&'a str, u16, &'a str),
    FetchError,
>)
    ensures
        match r {
            Ok((version, status, explanation)) => status_line matches Some(line)
                && status_line_spec(line@) == Some((version@, status, explanation@)),
            Err(e) => e == FetchError::MalformedStatusLine && (status_line matches Some(line)
                ==> status_line_spec(line@) is None),
        },
{
    let line = match status_line {
        None => {
            return Err(FetchError::MalformedStatusLine);
        },
        Some(line) => line,
    };
    let v = chars_of(line);
    let n = v.len();
    let pat: Vec<char> = vec![' '];
    assert(pat@ =~= space());
    assert(v@.subrange(0, n as int) =~= v@);
    let (version_end, code_start) = match split_in(&v, 0, n, &pat) {
        None => {
            return Err(FetchError::MalformedStatusLine);
        },
        Some(cut) => cut,
    };
    let (code_end, explanation_start) = match split_in(&v, code_start, n, &pat) {
        None => {
            return Err(FetchError::MalformedStatusLine);
        },
        Some(cut) => cut,
    };
    let status = match parse_u16(&v, code_start, code_end) {
        None => {
            return Err(FetchError::MalformedStatusLine);
        },
        Some(status) => status,
    };
    Ok((line.substring_char(0, version_end), status, line.substring_char(explanation_start, n)))
}

/// The first line of a text, and what follows the end of that line, if the
/// line has an end.
pub open spec fn first_line(text: Seq<char>) -> (Seq<char>, Option<Seq<char>>) {
    match split_once(text, crlf()) {
        Some((line, rest)) => (line, Some(rest)),
        None => (text, None),
    }
}

/// Reads header lines from `text` into `sofar`, up to the first line
/// without a colon. A header line gives the name before its first colon,
/// trimmed and in lowercase, and the value after it, trimmed. The body is
/// all of the text from the first line without a colon on, trimmed; where
/// every line has a colon, there is none.
pub open spec fn read_headers(text: Seq<char>, sofar: Entries) -> (Entries, Option<Seq<char>>)
    decreases text.len(),
    via read_headers_decreases
{
    let (line, rest) = first_line(text);
    match split_once(line, colon()) {
        None => (sofar, Some(trim(text))),
        Some((name, value)) => {
            let grown = insert(sofar, lowercase_of(trim(name)), trim(value));
            match rest {
                None => (grown, None),
                Some(more) => read_headers(more, grown),
            }
        },
    }
}

#[via_fn]
proof fn read_headers_decreases(text: Seq<char>, sofar: Entries) {
    if split_once(text, crlf()) is Some {
        lemma_index_of_some(text, crlf());
    }
}

/// What a response says, the request that it answers set aside.
pub struct ParsedView {
    pub status: u16,
    pub version: Seq<char>,
    pub explanation: Seq<char>,
    pub headers: Entries,
    pub body: Option<Seq<char>>,
}

/// What a response says.
pub open spec fn parsed_of(response: ResponseView) -> ParsedView {
    ParsedView {
        status: response.status,
        version: response.version,
        explanation: response.explanation,
        headers: response.headers,
        body: response.body,
    }
}

/// What was read from a response, as the response to `request`.
pub open spec fn response_to(request: RequestView, parsed: ParsedView) -> ResponseView {
    ResponseView {
        status: parsed.status,
        version: parsed.version,
        explanation: parsed.explanation,
        body: parsed.body,
        headers: parsed.headers,
        request,
    }
}

/// A response from its text: the status line, then headers and body. A
/// response that declares a transfer or content encoding is refused,
/// whatever else it holds, once its status line has been read.
pub open spec fn response_spec(raw: Seq<char>) -> Result<ParsedView, FetchError> {
    let (line, rest) = first_line(raw);
    match status_line_spec(line) {
        None => Err(FetchError::MalformedStatusLine),
        Some((version, status, explanation)) => {
            let (headers, body) = match rest {
                None => (Entries::empty(), None),
                Some(more) => read_headers(more, Entries::empty()),
            };
            if has_key(headers, "transfer-encoding"@) || has_key(headers, "content-encoding"@) {
                Err(FetchError::UnsupportedEncoding)
            } else {
                Ok(ParsedView { status, version, explanation, headers, body })
            }
        },
    }
}

/// Finds where the line that begins at `pos` ends, and where the next line
/// begins, if one follows.
fn line_at(v: &Vec<char>, pos: usize) -> (r: (usize, Option<usize>))
    requires
        pos <= v.len(),
    ensures
        pos <= r.0 <= v.len(),
        first_line(v@.skip(pos as int)).0 == v@.subrange(pos as int, r.0 as int),
        match r.1 {
            Some(next) => pos < next <= v.len() && first_line(v@.skip(pos as int)).1 == Some(
                v@.skip(next as int),
            ),
            None => first_line(v@.skip(pos as int)).1 is None,
        },
{
    let n = v.len();
    let end_of_line: Vec<char> = vec!['\r', '\n'];
    assert(v@.subrange(pos as int, n as int) =~= v@.skip(pos as int));
    match split_in(v, pos, n, &end_of_line) {
        Some((end, next)) => {
            assert(v@.subrange(next as int, n as int) =~= v@.skip(next as int));
            (end, Some(next))
        },
        None => (n, None),
    }
}

/// Reads the line of `text` between `pos` and `end` as a header and puts it
/// into `headers`. Tells whether the line was a header.
fn read_header_line(
    text: &str,
    v: &Vec<char>,
    pos: usize,
    end: usize,
    headers: &mut Headers,
) -> (r: bool)
    requires
        v@ == text@,
        pos <= end <= v.len(),
    ensures
        match split_once(v@.subrange(pos as int, end as int), colon()) {
            None => !r && final(headers)@ == old(headers)@,
            Some((name, value)) => r && final(headers)@ == insert(
                old(headers)@,
                lowercase_of(trim(name)),
                trim(value),
            ),
        },
{
    let colon_pat: Vec<char> = vec![':'];
    assert(colon_pat@ =~= colon());
    match split_in(v, pos, end, &colon_pat) {
        None => false,
        Some((name_end, value_start)) => {
            let (ka, kb) = trim_range(v, pos, name_end);
            let (va, vb) = trim_range(v, value_start, end);
            let name = to_lowercase(text.substring_char(ka, kb));
            headers.insert(name, substring(text, va, vb));
            true
        },
    }
}

/// Reads the headers of `text` from `pos` on into `headers`, and returns the
/// body.
#[verifier::loop_isolation(false)]
fn read_header_block(text: &str, v: &Vec<char>, pos: usize, headers: &mut Headers) -> (body:
    Option<String>)
    requires
        v@ == text@,
        pos <= v.len(),
    ensures
        (final(headers)@, option_view(body)) == read_headers(v@.skip(pos as int), old(headers)@),
{
    let n = v.len();
    let ghost goal = read_headers(v@.skip(pos as int), headers@);
    let mut at: usize = pos;
    loop
        invariant
            at <= n,
            n == v.len(),
            v@ == text@,
            read_headers(v@.skip(at as int), headers@) == goal,
        decreases n - at,
    {
        let (end, next) = line_at(v, at);
        if !read_header_line(text, v, at, end, headers) {
            let (a, b) = trim_range(v, at, n);
            return Some(substring(text, a, b));
        }
        match next {
            None => {
                return None;
            },
            Some(p) => {
                at = p;
            },
        }
    }
}

/// Reads a response from its text, and keeps with it the request that it
/// answers.
pub fn parse_response(response: String, request: Request) -> (r: Result<Response, FetchError>)
    ensures
        match r {
            Ok(parsed) => response_spec(response@) == Ok::<ParsedView, FetchError>(
                parsed_of(parsed@),
            ) && parsed.request@ == request@,
            Err(e) => response_spec(response@) == Err::<ParsedView, FetchError>(e),
        },
{
    let text = response.as_str();
    let v = chars_of(text);
    assert(v@.skip(0) =~= v@);
    let (line_end, next) = line_at(&v, 0);
    let (version, status, explanation) = match split_response_status_line(
        Some(text.substring_char(0, line_end)),
    ) {
        Err(e) => {
            return Err(e);
        },
        Ok(fields) => fields,
    };
    let mut headers = Headers::new();
    let body = match next {
        Some(pos) => read_header_block(text, &v, pos, &mut headers),
        None => None,
    };
    if headers.contains_key("transfer-encoding") || headers.contains_key("content-encoding") {
        return Err(FetchError::UnsupportedEncoding);
    }
    Ok(
        Response {
            status,
            version: version.to_owned(),
            explanation: explanation.to_owned(),
            body,
            headers,
            request,
        },
    )
}

/// A line that reads as a header: it holds a colon, and no end of line.
pub open spec fn is_header_line(line: Seq<char>) -> bool {
    contains(line, colon()) && !contains(line, crlf())
}

/// Lines as they stand in a response: each with its end.
pub open spec fn header_block(lines: Seq<Seq<char>>) -> Seq<char>
    decreases lines.len(),
{
    if lines.len() == 0 {
        Seq::empty()
    } else {
        lines[0] + crlf() + header_block(lines.skip(1))
    }
}

/// The headers that header lines give, put into `sofar` in their order.
pub open spec fn headers_of(lines: Seq<Seq<char>>, sofar: Entries) -> Entries
    decreases lines.len(),
{
    if lines.len() == 0 {
        sofar
    } else {
        let (name, value) = split_once(lines[0], colon())->0;
        headers_of(lines.skip(1), insert(sofar, lowercase_of(trim(name)), trim(value)))
    }
}

/// Header lines are read one by one, and what follows them is read with
/// their headers in hand.
pub proof fn lemma_read_header_lines(lines: Seq<Seq<char>>, tail: Seq<char>, sofar: Entries)
    requires
        forall|i: int| 0 <= i < lines.len() ==> is_header_line(#[trigger] lines[i]),
    ensures
        read_headers(header_block(lines) + tail, sofar) == read_headers(
            tail,
            headers_of(lines, sofar),
        ),
    decreases lines.len(),
{
    if lines.len() == 0 {
        assert(header_block(lines) + tail =~= tail);
    } else {
        let line = lines[0];
        let rest = lines.skip(1);
        let after = header_block(rest) + tail;
        assert(header_block(lines) + tail =~= line + crlf() + after);
        lemma_split_at_pattern(line, crlf(), after);
        lemma_index_of_some(line, colon());
        let (name, value) = split_once(line, colon())->0;
        assert forall|i: int| 0 <= i < rest.len() implies is_header_line(#[trigger] rest[i]) by {
            assert(rest[i] == lines[i + 1]);
        }
        lemma_read_header_lines(rest, tail, insert(sofar, lowercase_of(trim(name)), trim(value)));
    }
}

/// A name that stands in the headers read so far stands in the headers that
/// the rest of the text leaves.
pub proof fn lemma_read_headers_keeps_names(text: Seq<char>, sofar: Entries, name: Seq<char>)
    requires
        has_key(sofar, name),
    ensures
        has_key(read_headers(text, sofar).0, name),
    decreases text.len(),
{
    let (line, rest) = first_line(text);
    if let Some((key, value)) = split_once(line, colon()) {
        let grown = insert(sofar, lowercase_of(trim(key)), trim(value));
        lemma_insert_keeps_names(sofar, lowercase_of(trim(key)), trim(value), name);
        if let Some(more) = rest {
            lemma_index_of_some(text, crlf());
            lemma_read_headers_keeps_names(more, grown, name);
        }
    }
}

/// The text of a response from its parts: the status line, header lines,
/// one more header line with a name and a value of its own, and what
/// follows.
pub open spec fn response_text(
    status_line: Seq<char>,
    before: Seq<Seq<char>>,
    name: Seq<char>,
    value: Seq<char>,
    tail: Seq<char>,
) -> Seq<char> {
    status_line + crlf() + (header_block(before) + (name + colon() + value + crlf() + tail))
}

/// What a response says, for a response that is given by its parts: the
/// header that is named by itself is put into the headers of the lines
/// before it, under its name, trimmed and in lowercase, and the rest is
/// read from there.
pub proof fn lemma_response_by_parts(
    status_line: Seq<char>,
    before: Seq<Seq<char>>,
    name: Seq<char>,
    value: Seq<char>,
    tail: Seq<char>,
)
    requires
        !contains(status_line, crlf()),
        forall|i: int| 0 <= i < before.len() ==> is_header_line(#[trigger] before[i]),
        !contains(name, colon()),
        !contains(name + colon() + value, crlf()),
    ensures
        first_line(response_text(status_line, before, name, value, tail)).0 == status_line,
        first_line(response_text(status_line, before, name, value, tail)).1 matches Some(rest)
            && read_headers(rest, Entries::empty()) == read_headers(
            tail,
            insert(headers_of(before, Entries::empty()), lowercase_of(trim(name)), trim(value)),
        ),
{
    let line = name + colon() + value;
    let last = line + crlf() + tail;
    let rest = header_block(before) + last;
    assert(starts_once(crlf())) by {
        assert(crlf()[0] == '\r' && crlf()[1] == '\n');
    }
    lemma_split_at_pattern(status_line, crlf(), rest);
    lemma_read_header_lines(before, last, Entries::empty());
    lemma_split_at_pattern(line, crlf(), tail);
    lemma_split_at_char(name, ':', value);
}

/// Header names are read without regard to the case of their letters: two
/// responses that differ in one header name only, and there only in what
/// trimming and lowercase take away, say the same.
pub proof fn lemma_header_names_ignore_case(
    status_line: Seq<char>,
    before: Seq<Seq<char>>,
    name: Seq<char>,
    other: Seq<char>,
    value: Seq<char>,
    tail: Seq<char>,
)
    requires
        !contains(status_line, crlf()),
        forall|i: int| 0 <= i < before.len() ==> is_header_line(#[trigger] before[i]),
        !contains(name, colon()),
        !contains(name + colon() + value, crlf()),
        !contains(other, colon()),
        !contains(other + colon() + value, crlf()),
        lowercase_of(trim(name)) == lowercase_of(trim(other)),
    ensures
        response_spec(response_text(status_line, before, name, value, tail)) == response_spec(
            response_text(status_line, before, other, value, tail),
        ),
{
    lemma_response_by_parts(status_line, before, name, value, tail);
    lemma_response_by_parts(status_line, before, other, value, tail);
}

/// A response that declares a transfer or content encoding in any of its
/// headers is refused with `UnsupportedEncoding`, whatever its status line,
/// if that is one, its other headers and its body are.
pub proof fn lemma_encoded_response_is_refused(
    status_line: Seq<char>,
    before: Seq<Seq<char>>,
    name: Seq<char>,
    value: Seq<char>,
    tail: Seq<char>,
)
    requires
        status_line_spec(status_line) is Some,
        !contains(status_line, crlf()),
        forall|i: int| 0 <= i < before.len() ==> is_header_line(#[trigger] before[i]),
        !contains(name, colon()),
        !contains(name + colon() + value, crlf()),
        lowercase_of(trim(name)) == "transfer-encoding"@ || lowercase_of(trim(name))
            == "content-encoding"@,
    ensures
        response_spec(response_text(status_line, before, name, value, tail)) == Err::<
            ParsedView,
            FetchError,
        >(FetchError::UnsupportedEncoding),
{
    lemma_response_by_parts(status_line, before, name, value, tail);
    let key = lowercase_of(trim(name));
    let sofar = headers_of(before, Entries::empty());
    lemma_insert_keeps_names(sofar, key, trim(value), key);
    lemma_read_headers_keeps_names(tail, insert(sofar, key, trim(value)), key);
}

} // verus!
