//! An HTTP/1.1 client without a socket of its own: it writes requests, reads
//! responses and follows redirects, and makes each attempt through the
//! transport that its caller hands it.

use vstd::prelude::*;
use vstd::string::StringExecFns;
use crate::error::FetchError;
use crate::headers::{lookup, Headers};
use crate::request::{
    headers_view, raw_http_request, request_text, Method, Request, RequestView,
};
use crate::response::{parse_response, response_spec, response_to, Response, ResponseView};
use crate::text::{chars_of, str_eq};
use crate::transport::{receive, reply_text, Reply, ReplyView, Transport};
use crate::url::{domain_spec, parse_spec, scheme_separator, UrlView, URL};

verus! {

/// The text of the URL that a redirect leads to. A location that begins
/// with `/` is a path on the scheme and host of the request that was
/// redirected, without its port; any other location is a URL by itself.
pub open spec fn redirect_target(from: UrlView, location: Seq<char>) -> Seq<char> {
    if location.len() > 0 && location[0] == '/' {
        from.scheme + scheme_separator() + from.host + location
    } else {
        location
    }
}

/// The request that follows a redirect: a `GET` without body to the URL
/// that the `location` header leads to, with the headers that the caller
/// gave to the request that was redirected.
pub open spec fn next_request_spec(response: ResponseView) -> Result<RequestView, FetchError> {
    match lookup(response.headers, "location"@) {
        None => Err(FetchError::MissingRedirectLocation),
        Some(location) => match parse_spec(redirect_target(response.request.url, location)) {
            None => Err(FetchError::MalformedURL),
            Some(url) => Ok(
                RequestView {
                    url,
                    headers: response.request.headers,
                    method: Method::GET,
                    body: None,
                },
            ),
        },
    }
}

/// Builds the request that follows a redirect. Fails where the response
/// has no `location` header, and where that header leads to no URL.
pub fn get_next_request(response: &Response) -> (r: Result<Request, FetchError>)
    ensures
        match r {
            Ok(next) => next_request_spec(response@) == Ok::<RequestView, FetchError>(next@),
            Err(e) => next_request_spec(response@) == Err::<RequestView, FetchError>(e),
        },
{
    let location = match response.headers.get("location") {
        None => {
            return Err(FetchError::MissingRedirectLocation);
        },
        Some(location) => location,
    };
    let first = chars_of(location.as_str());
    let parsed = if first.len() > 0 && first[0] == '/' {
        let mut target = response.request.url.scheme.clone();
        proof {
            reveal_strlit("://");
        }
        assert("://"@ =~= scheme_separator());
        target.append("://");
        target.append(response.request.url.host.as_str());
        target.append(location.as_str());
        URL::parse(target.as_str())
    } else {
        URL::parse(location.as_str())
    };
    let url = match parsed {
        Err(e) => {
            return Err(e);
        },
        Ok(url) => url,
    };
    let headers = match &response.request.headers {
        Some(h) => Some(h.clone()),
        None => None,
    };
    Ok(Request { url, headers, method: Method::GET, body: None })
}

/// The most redirects that one fetch follows.
pub const MAX_REDIRECTS: u8 = 20;

/// One attempt of a fetch, as the transport needs it: how to connect, the
/// address to connect to, the name to ask the server for, and the text to
/// send.
#[derive(Debug, PartialEq)]
pub struct Attempt {
    pub transport: Transport,
    pub address: String,
    pub server_name: String,
    pub payload: String,
}

/// What an `Attempt` holds, as character sequences.
pub struct AttemptView {
    pub transport: Transport,
    pub address: Seq<char>,
    pub server_name: Seq<char>,
    pub payload: Seq<char>,
}

impl View for Attempt {
    type V = AttemptView;

    open spec fn view(&self) -> AttemptView {
        AttemptView {
            transport: self.transport,
            address: self.address@,
            server_name: self.server_name@,
            payload: self.payload@,
        }
    }
}

/// A fetch under way: the request that is next to go out, and the number
/// of redirects followed so far.
#[derive(Debug, PartialEq)]
pub struct Fetch {
    pub request: Request,
    pub redirect_count: u8,
}

/// What a `Fetch` holds, as character sequences.
pub struct FetchView {
    pub request: RequestView,
    pub redirect_count: u8,
}

impl View for Fetch {
    type V = FetchView;

    open spec fn view(&self) -> FetchView {
        FetchView { request: self.request@, redirect_count: self.redirect_count }
    }
}

/// What a response does to a fetch.
#[derive(Debug, PartialEq)]
pub enum Step {
    /// The fetch is over, and this is its response.
    Done(Response),
    /// The response was a redirect, and the fetch goes on from here.
    Redirect(Fetch),
}

/// What a `Step` holds, as character sequences.
pub enum StepView {
    Done(ResponseView),
    Redirect(FetchView),
}

impl View for Step {
    type V = StepView;

    open spec fn view(&self) -> StepView {
        match self {
            Step::Done(response) => StepView::Done(response@),
            Step::Redirect(fetch) => StepView::Redirect(fetch@),
        }
    }
}

/// The transport that a scheme asks for.
pub open spec fn transport_for(scheme: Seq<char>) -> Option<Transport> {
    if scheme == "http"@ {
        Some(Transport::Plain)
    } else if scheme == "https"@ {
        Some(Transport::Tls)
    } else {
        None
    }
}

/// The attempt that a fetch makes next. A fetch that has followed more than
/// `MAX_REDIRECTS` redirects makes none, nor does one whose scheme is
/// neither `http` nor `https`.
pub open spec fn attempt_spec(fetch: FetchView) -> Result<AttemptView, FetchError> {
    if fetch.redirect_count > MAX_REDIRECTS {
        Err(FetchError::TooManyRedirects)
    } else {
        match transport_for(fetch.request.url.scheme) {
            None => Err(FetchError::UnsupportedScheme),
            Some(transport) => Ok(
                AttemptView {
                    transport,
                    address: domain_spec(fetch.request.url)->0,
                    server_name: fetch.request.url.host,
                    payload: request_text(fetch.request),
                },
            ),
        }
    }
}

/// What the text of a response does to a fetch. A status from 100 to 299
/// ends the fetch with the response; one from 300 to 399 sends it on to the
/// request that follows the redirect, with one redirect more on its count;
/// one from 400 to 599 is not handled; any other is unknown.
pub open spec fn advance_spec(fetch: FetchView, raw: Seq<char>) -> Result<StepView, FetchError> {
    if fetch.redirect_count > MAX_REDIRECTS {
        Err(FetchError::TooManyRedirects)
    } else {
        match response_spec(raw) {
            Err(e) => Err(e),
            Ok(parsed) => {
                let response = response_to(fetch.request, parsed);
                if 100 <= parsed.status < 300 {
                    Ok(StepView::Done(response))
                } else if 300 <= parsed.status < 400 {
                    match next_request_spec(response) {
                        Err(e) => Err(e),
                        Ok(next) => Ok(
                            StepView::Redirect(
                                FetchView {
                                    request: next,
                                    redirect_count: (fetch.redirect_count + 1) as u8,
                                },
                            ),
                        ),
                    }
                } else if 400 <= parsed.status < 600 {
                    Err(FetchError::NotImplemented)
                } else {
                    Err(FetchError::UnknownStatusClass)
                }
            },
        }
    }
}

impl Fetch {
    /// A fetch at its start: no redirect followed yet.
    pub fn new(request: Request) -> (r: Fetch)
        ensures
            r.request == request,
            r.redirect_count == 0,
    {
        Fetch { request, redirect_count: 0 }
    }

    /// Prepares the next attempt: checks the redirect count and the scheme,
    /// and writes the request out.
    pub fn attempt(&self) -> (r: Result<Attempt, FetchError>)
        ensures
            match r {
                Ok(a) => attempt_spec(self@) == Ok::<AttemptView, FetchError>(a@),
                Err(e) => attempt_spec(self@) == Err::<AttemptView, FetchError>(e),
            },
    {
        if self.redirect_count > MAX_REDIRECTS {
            return Err(FetchError::TooManyRedirects);
        }
        let scheme = self.request.url.scheme.as_str();
        let transport = if str_eq(scheme, "http") {
            Transport::Plain
        } else if str_eq(scheme, "https") {
            Transport::Tls
        } else {
            return Err(FetchError::UnsupportedScheme);
        };
        let address = match self.request.url.domain() {
            Err(e) => {
                // does not happen: both schemes have a port of their own
                return Err(e);
            },
            Ok(address) => address,
        };
        Ok(
            Attempt {
                transport,
                address,
                server_name: self.request.url.host.clone(),
                payload: raw_http_request(&self.request),
            },
        )
    }

    /// Takes the text of the response to the last attempt, and says how the
    /// fetch goes on.
    pub fn advance(self, raw: String) -> (r: Result<Step, FetchError>)
        ensures
            match r {
                Ok(step) => advance_spec(self@, raw@) == Ok::<StepView, FetchError>(step@),
                Err(e) => advance_spec(self@, raw@) == Err::<StepView, FetchError>(e),
            },
    {
        if self.redirect_count > MAX_REDIRECTS {
            return Err(FetchError::TooManyRedirects);
        }
        let redirect_count = self.redirect_count;
        let response = match parse_response(raw, self.request) {
            Err(e) => {
                return Err(e);
            },
            Ok(response) => response,
        };
        if 100 <= response.status && response.status < 300 {
            Ok(Step::Done(response))
        } else if 300 <= response.status && response.status < 400 {
            match get_next_request(&response) {
                Err(e) => Err(e),
                Ok(next) => Ok(
                    Step::Redirect(Fetch { request: next, redirect_count: redirect_count + 1 }),
                ),
            }
        } else if 400 <= response.status && response.status < 600 {
            Err(FetchError::NotImplemented)
        } else {
            Err(FetchError::UnknownStatusClass)
        }
    }
}

/// One exchange with the transport: the attempt that went out, and what
/// came back.
pub type Exchange = (Attempt, Reply);

/// What an `Exchange` holds, as sequences.
pub type ExchangeView = (AttemptView, ReplyView);

/// What the exchanges of a fetch hold.
pub open spec fn log_view(log: Seq<Exchange>) -> Seq<ExchangeView> {
    Seq::new(log.len(), |i: int| (log[i].0@, log[i].1@))
}

/// What the result of a fetch holds.
pub open spec fn result_view(r: Result<Response, FetchError>) -> Result<ResponseView, FetchError> {
    match r {
        Ok(response) => Ok(response@),
        Err(e) => Err(e),
    }
}

/// The fetch that starts in the state `fetch` and has the exchanges `log`
/// with its transport, these and no more, ends in `result`.
///
/// Each exchange begins with the attempt that the fetch makes in its state.
/// A reply that carries a redirect leads to the next state and the next
/// exchange. The fetch ends without an exchange where it makes no attempt,
/// and with an exchange where the reply carries no response or one that
/// ends the fetch.
#[verifier::opaque]
pub open spec fn explains(
    fetch: FetchView,
    log: Seq<ExchangeView>,
    result: Result<ResponseView, FetchError>,
) -> bool
    decreases log.len(),
{
    match attempt_spec(fetch) {
        Err(e) => log.len() == 0 && result == Err::<ResponseView, FetchError>(e),
        Ok(attempt) => log.len() > 0 && log[0].0 == attempt && match reply_text(
            attempt.transport,
            log[0].1,
        ) {
            Err(e) => log.len() == 1 && result == Err::<ResponseView, FetchError>(e),
            Ok(raw) => match advance_spec(fetch, raw) {
                Err(e) => log.len() == 1 && result == Err::<ResponseView, FetchError>(e),
                Ok(StepView::Done(response)) => log.len() == 1 && result == Ok::<
                    ResponseView,
                    FetchError,
                >(response),
                Ok(StepView::Redirect(next)) => explains(next, log.skip(1), result),
            },
        },
    }
}

/// What an exchange holds, if there was one.
spec fn seen(exchange: Option<Exchange>) -> Option<ExchangeView> {
    match exchange {
        Some(x) => Some((x.0@, x.1@)),
        None => None,
    }
}

/// The exchanges of one round: one, or none.
spec fn as_log(exchange: Option<ExchangeView>) -> Seq<ExchangeView> {
    match exchange {
        Some(x) => seq![x],
        None => Seq::empty(),
    }
}

/// What the outcome of a round holds.
spec fn step_view(r: Result<Step, FetchError>) -> Result<StepView, FetchError> {
    match r {
        Ok(step) => Ok(step@),
        Err(e) => Err(e),
    }
}

/// The exchange is the one that the round of `fetch` has: none where the
/// fetch makes no attempt, and else one that begins with its attempt.
#[verifier::opaque]
spec fn fits(fetch: FetchView, exchange: Option<ExchangeView>) -> bool {
    match exchange {
        None => attempt_spec(fetch) is Err,
        Some(x) => attempt_spec(fetch) == Ok::<AttemptView, FetchError>(x.0),
    }
}

/// What one round of a fetch comes to: the failure with which the fetch
/// ends there, or the step that the reply asks for.
#[verifier::opaque]
spec fn round_spec(fetch: FetchView, exchange: Option<ExchangeView>) -> Result<
    StepView,
    FetchError,
> {
    match exchange {
        None => Err(attempt_spec(fetch)->Err_0),
        Some(x) => match reply_text(x.0.transport, x.1) {
            Err(e) => Err(e),
            Ok(raw) => advance_spec(fetch, raw),
        },
    }
}

/// A fetch ends in the round that fails.
proof fn lemma_round_fails(fetch: FetchView, exchange: Option<ExchangeView>, e: FetchError)
    requires
        fits(fetch, exchange),
        round_spec(fetch, exchange) == Err::<StepView, FetchError>(e),
    ensures
        explains(fetch, as_log(exchange), Err(e)),
{
    reveal(explains);
    reveal(fits);
    reveal(round_spec);
    if let Some(x) = exchange {
        assert(as_log(exchange)[0] == x);
    }
}

/// A fetch ends in the round that brings a response which is no redirect.
proof fn lemma_round_is_done(
    fetch: FetchView,
    exchange: Option<ExchangeView>,
    response: ResponseView,
)
    requires
        fits(fetch, exchange),
        round_spec(fetch, exchange) == Ok::<StepView, FetchError>(StepView::Done(response)),
    ensures
        explains(fetch, as_log(exchange), Ok(response)),
{
    reveal(explains);
    reveal(fits);
    reveal(round_spec);
    if let Some(x) = exchange {
        assert(as_log(exchange)[0] == x);
    }
}

/// A fetch that goes on after a redirect ends as the fetch from the next
/// state does.
proof fn lemma_round_redirects(
    fetch: FetchView,
    exchange: Option<ExchangeView>,
    next: FetchView,
    rest: Seq<ExchangeView>,
    result: Result<ResponseView, FetchError>,
)
    requires
        fits(fetch, exchange),
        round_spec(fetch, exchange) == Ok::<StepView, FetchError>(StepView::Redirect(next)),
        explains(next, rest, result),
    ensures
        explains(fetch, as_log(exchange) + rest, result),
{
    reveal(explains);
    reveal(fits);
    reveal(round_spec);
    let x = exchange->0;
    let log = as_log(exchange) + rest;
    assert(log.skip(1) =~= rest);
}

/// What holds of the exchanges so far while a fetch from `start` is in the
/// state `now`: however the fetch ends from `now`, it ends so from `start`,
/// with the exchanges so far in front.
#[verifier::opaque]
spec fn leads_to(start: FetchView, sofar: Seq<ExchangeView>, now: FetchView) -> bool {
    forall|rest: Seq<ExchangeView>, result: Result<ResponseView, FetchError>|
        #[trigger] explains(now, rest, result) ==> explains(start, sofar + rest, result)
}

/// A fetch is where it started before any exchange.
proof fn lemma_leads_to_start(start: FetchView)
    ensures
        leads_to(start, Seq::empty(), start),
{
    reveal(leads_to);
    assert forall|rest: Seq<ExchangeView>, result: Result<ResponseView, FetchError>|
        #[trigger] explains(start, rest, result) implies explains(
        start,
        Seq::<ExchangeView>::empty() + rest,
        result,
    ) by {
        assert(Seq::<ExchangeView>::empty() + rest =~= rest);
    }
}

/// A round that ends in a redirect takes the fetch to the next state.
proof fn lemma_leads_to_next(
    start: FetchView,
    sofar: Seq<ExchangeView>,
    now: FetchView,
    exchange: Option<ExchangeView>,
    next: FetchView,
)
    requires
        leads_to(start, sofar, now),
        fits(now, exchange),
        round_spec(now, exchange) == Ok::<StepView, FetchError>(StepView::Redirect(next)),
    ensures
        leads_to(start, sofar + as_log(exchange), next),
{
    reveal(leads_to);
    assert forall|rest: Seq<ExchangeView>, result: Result<ResponseView, FetchError>|
        #[trigger] explains(next, rest, result) implies explains(
        start,
        sofar + as_log(exchange) + rest,
        result,
    ) by {
        lemma_round_redirects(now, exchange, next, rest, result);
        assert(sofar + as_log(exchange) + rest =~= sofar + (as_log(exchange) + rest));
    }
}

/// The end of a fetch, seen from its start.
proof fn lemma_leads_to_end(
    start: FetchView,
    sofar: Seq<ExchangeView>,
    now: FetchView,
    last: Seq<ExchangeView>,
    result: Result<ResponseView, FetchError>,
)
    requires
        leads_to(start, sofar, now),
        explains(now, last, result),
    ensures
        explains(start, sofar + last, result),
{
    reveal(leads_to);
}

/// Makes one round of a fetch: the attempt, the exchange with the transport,
/// and the step that the reply asks for. Hands back the exchange that took
/// place, if the fetch made an attempt.
fn round<T>(fetch: Fetch, transport: &T) -> (r: (Result<Step, FetchError>, Ghost<Option<Exchange>>))
    where T: Fn(&Attempt) -> Reply
    requires
        forall|a: &Attempt| #[trigger] transport.requires((a,)),
    ensures
        r.1@ matches Some(exchange) ==> transport.ensures((&exchange.0,), exchange.1),
        fits(fetch@, seen(r.1@)),
        round_spec(fetch@, seen(r.1@)) == step_view(r.0),
{
    reveal(fits);
    reveal(round_spec);
    let attempt = match fetch.attempt() {
        Err(e) => {
            return (Err(e), Ghost(None));
        },
        Ok(attempt) => attempt,
    };
    let reply = transport(&attempt);
    let ghost exchange: Exchange = (attempt, reply);
    let raw = match receive(attempt.transport, reply) {
        Err(e) => {
            return (Err(e), Ghost(Some(exchange)));
        },
        Ok(raw) => raw,
    };
    (fetch.advance(raw), Ghost(Some(exchange)))
}

/// Runs a fetch from `request` on, with `redirect_count` redirects behind
/// it, to its end: makes each attempt through `transport`, and follows
/// redirects as long as the count allows.
///
/// The result is the one that the exchanges with the transport explain.
pub fn do_request<T>(request: Request, redirect_count: u8, transport: T) -> (r: Result<
    Response,
    FetchError,
>) where T: Fn(&Attempt) -> Reply
    requires
        forall|a: &Attempt| #[trigger] transport.requires((a,)),
    ensures
        exists|log: Seq<Exchange>|
            {
                &&& forall|i: int|
                    0 <= i < log.len() ==> transport.ensures((&(#[trigger] log[i]).0,), log[i].1)
                &&& #[trigger] explains(
                    FetchView { request: request@, redirect_count },
                    log_view(log),
                    result_view(r),
                )
            },
{
    let mut fetch = Fetch { request, redirect_count };
    let ghost start = fetch@;
    let ghost mut log: Seq<Exchange> = Seq::empty();
    proof {
        lemma_leads_to_start(start);
        assert(log_view(log) =~= Seq::<ExchangeView>::empty());
    }
    loop
        invariant
            start == (FetchView { request: request@, redirect_count }),
            forall|a: &Attempt| #[trigger] transport.requires((a,)),
            forall|i: int|
                0 <= i < log.len() ==> transport.ensures((&(#[trigger] log[i]).0,), log[i].1),
            leads_to(start, log_view(log), fetch@),
        decreases u8::MAX - fetch.redirect_count,
    {
        let ghost now = fetch@;
        let ghost sofar = log_view(log);
        let (step, Ghost(exchange)) = round(fetch, &transport);
        let ghost last = as_log(seen(exchange));
        proof {
            if let Some(x) = exchange {
                log = log.push(x);
            }
            assert(log_view(log) =~= sofar + last);
        }
        match step {
            Err(e) => {
                proof {
                    lemma_round_fails(now, seen(exchange), e);
                    lemma_leads_to_end(start, sofar, now, last, Err(e));
                }
                return Err(e);
            },
            Ok(Step::Done(response)) => {
                proof {
                    lemma_round_is_done(now, seen(exchange), response@);
                    lemma_leads_to_end(start, sofar, now, last, Ok(response@));
                }
                return Ok(response);
            },
            Ok(Step::Redirect(next)) => {
                proof {
                    lemma_leads_to_next(start, sofar, now, seen(exchange), next@);
                    assert(next.redirect_count == now.redirect_count + 1) by {
                        reveal(round_spec);
                    }
                }
                fetch = next;
            },
        }
    }
}

/// Fetches the resource at `url` with a `GET`, through `transport`, with
/// the caller's `headers` on every attempt.
///
/// Fails with `MalformedURL`, and without an attempt, where `url` is no URL.
/// Otherwise the result is the one that the exchanges with the transport
/// explain, from a fetch that starts with no redirect behind it.
pub fn get<T>(url: String, headers: Option<Headers>, transport: T) -> (r: Result<
    Response,
    FetchError,
>) where T: Fn(&Attempt) -> Reply
    requires
        forall|a: &Attempt| #[trigger] transport.requires((a,)),
    ensures
        match parse_spec(url@) {
            None => r matches Err(e) && e == FetchError::MalformedURL,
            Some(target) => exists|log: Seq<Exchange>|
                {
                    &&& forall|i: int|
                        0 <= i < log.len() ==> transport.ensures(
                            (&(#[trigger] log[i]).0,),
                            log[i].1,
                        )
                    &&& #[trigger] explains(
                        FetchView {
                            request: RequestView {
                                url: target,
                                headers: headers_view(headers),
                                method: Method::GET,
                                body: None,
                            },
                            redirect_count: 0,
                        },
                        log_view(log),
                        result_view(r),
                    )
                },
        },
{
    let target = match URL::parse(url.as_str()) {
        Err(e) => {
            return Err(e);
        },
        Ok(target) => target,
    };
    let request = Request { method: Method::GET, url: target, headers, body: None };
    do_request(request, 0, transport)
}

/// Sends `body` to `url` with a `POST`. This client does not do that: the
/// call fails with `NotImplemented`, and nothing is sent.
pub fn post(url: URL, body: Option<String>, headers: Option<Headers>) -> (r: Result<
    Response,
    FetchError,
>)
    ensures
        r matches Err(e) && e == FetchError::NotImplemented,
{
    Err(FetchError::NotImplemented)
}

/// A fetch makes no more attempts than its redirect count leaves room for:
/// one, and one more for each redirect up to `MAX_REDIRECTS`. From its start
/// that is twenty-one.
pub proof fn lemma_attempts_are_bounded(
    fetch: FetchView,
    log: Seq<ExchangeView>,
    result: Result<ResponseView, FetchError>,
)
    requires
        explains(fetch, log, result),
    ensures
        log.len() == 0 || log.len() + fetch.redirect_count <= MAX_REDIRECTS + 1,
    decreases log.len(),
{
    reveal(explains);
    if let Ok(attempt) = attempt_spec(fetch) {
        if let Ok(raw) = reply_text(attempt.transport, log[0].1) {
            if let Ok(StepView::Redirect(next)) = advance_spec(fetch, raw) {
                lemma_attempts_are_bounded(next, log.skip(1), result);
            }
        }
    }
}

/// A fetch that fails with `TooManyRedirects` has made every attempt that
/// its redirect count left room for: from its start, exactly twenty-one.
pub proof fn lemma_too_many_redirects_come_last(
    fetch: FetchView,
    log: Seq<ExchangeView>,
    result: Result<ResponseView, FetchError>,
)
    requires
        explains(fetch, log, result),
        result == Err::<ResponseView, FetchError>(FetchError::TooManyRedirects),
        fetch.redirect_count <= MAX_REDIRECTS + 1,
    ensures
        log.len() + fetch.redirect_count == MAX_REDIRECTS + 1,
    decreases log.len(),
{
    reveal(explains);
    if let Ok(attempt) = attempt_spec(fetch) {
        if let Ok(raw) = reply_text(attempt.transport, log[0].1) {
            if let Ok(StepView::Redirect(next)) = advance_spec(fetch, raw) {
                lemma_too_many_redirects_come_last(next, log.skip(1), result);
            }
        }
    }
}

/// The reply to the attempt of `fetch` carries a redirect, and the redirect
/// leads to a URL with a scheme that the client speaks.
pub open spec fn redirects_on(fetch: FetchView, reply: ReplyView) -> bool {
    &&& attempt_spec(fetch) matches Ok(attempt)
    &&& reply_text(attempt.transport, reply) matches Ok(raw)
    &&& advance_spec(fetch, raw) matches Ok(StepView::Redirect(next))
    &&& transport_for(next.request.url.scheme) is Some
}

/// A server that answers every attempt with a redirect wears the fetch out:
/// it fails with `TooManyRedirects`, after as many attempts as its redirect
/// count left room for, which from its start is exactly twenty-one.
pub proof fn lemma_redirect_cycle_ends(
    fetch: FetchView,
    log: Seq<ExchangeView>,
    result: Result<ResponseView, FetchError>,
)
    requires
        explains(fetch, log, result),
        fetch.redirect_count <= MAX_REDIRECTS + 1,
        transport_for(fetch.request.url.scheme) is Some,
        forall|state: FetchView, i: int|
            0 <= i < log.len() && attempt_spec(state) == Ok::<AttemptView, FetchError>(
                (#[trigger] log[i]).0,
            ) ==> #[trigger] redirects_on(state, log[i].1),
    ensures
        result == Err::<ResponseView, FetchError>(FetchError::TooManyRedirects),
        log.len() + fetch.redirect_count == MAX_REDIRECTS + 1,
    decreases log.len(),
{
    reveal(explains);
    if fetch.redirect_count <= MAX_REDIRECTS {
        let attempt = attempt_spec(fetch)->Ok_0;
        assert(redirects_on(fetch, log[0].1));
        let raw = reply_text(attempt.transport, log[0].1)->Ok_0;
        let next = advance_spec(fetch, raw)->Ok_0->Redirect_0;
        let rest = log.skip(1);
        assert forall|state: FetchView, i: int|
            0 <= i < rest.len() && attempt_spec(state) == Ok::<AttemptView, FetchError>(
                (#[trigger] rest[i]).0,
            ) implies #[trigger] redirects_on(state, rest[i].1) by {
            assert(rest[i] == log[i + 1]);
        }
        lemma_redirect_cycle_ends(next, rest, result);
    }
}

/// A redirect without a `location` header ends the fetch with
/// `MissingRedirectLocation`, in the exchange that brought it.
pub proof fn lemma_redirect_without_location(
    fetch: FetchView,
    log: Seq<ExchangeView>,
    result: Result<ResponseView, FetchError>,
)
    requires
        explains(fetch, log, result),
        log.len() > 0,
        reply_text(log[0].0.transport, log[0].1) matches Ok(raw) && response_spec(raw) matches Ok(
            parsed,
        ) && 300 <= parsed.status < 400 && lookup(parsed.headers, "location"@) is None,
    ensures
        result == Err::<ResponseView, FetchError>(FetchError::MissingRedirectLocation),
        log.len() == 1,
{
    reveal(explains);
}

/// A fetch to a URL with a scheme that the client does not speak fails with
/// `UnsupportedScheme`, and makes no attempt.
pub proof fn lemma_other_schemes_make_no_attempt(
    fetch: FetchView,
    log: Seq<ExchangeView>,
    result: Result<ResponseView, FetchError>,
)
    requires
        explains(fetch, log, result),
        fetch.redirect_count <= MAX_REDIRECTS,
        transport_for(fetch.request.url.scheme) is None,
    ensures
        result == Err::<ResponseView, FetchError>(FetchError::UnsupportedScheme),
        log.len() == 0,
{
    reveal(explains);
}

} // verus!
