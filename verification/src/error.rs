//! The ways in which fetching a resource can fail.

use vstd::prelude::*;

verus! {

/// The stage at which a fetch failed. A failure ends the fetch: no partial
/// response is handed out with it.
#[derive(Debug, Clone, Copy, PartialEq, Eq, Structural)]
pub enum FetchError {
    /// The text is no URL: it holds no `://`.
    MalformedURL,
    /// The scheme is neither `http` nor `https`.
    UnsupportedScheme,
    /// The connection could not be opened, written to or read from.
    ConnectionFailure,
    /// The TLS session could not be set up.
    TlsHandshakeFailure,
    /// The response declares a transfer or content encoding.
    UnsupportedEncoding,
    /// The first line of the response is no status line.
    MalformedStatusLine,
    /// A redirect came without a `location` header.
    MissingRedirectLocation,
    /// More than twenty redirects were followed.
    TooManyRedirects,
    /// The status code lies outside 100 to 599.
    UnknownStatusClass,
    /// The request or the response asks for what this client does not do.
    NotImplemented,
}

/// What a failure is called when it is shown to a person.
pub open spec fn message_spec(e: FetchError) -> Seq<char> {
    match e {
        FetchError::MalformedURL => "could not parse url"@,
        FetchError::UnsupportedScheme => "unsupported scheme"@,
        FetchError::ConnectionFailure => "could not connect"@,
        FetchError::TlsHandshakeFailure => "could not create tls connection"@,
        FetchError::UnsupportedEncoding => "body is encoded, dont know how to handle that"@,
        FetchError::MalformedStatusLine => "status line could not be split in three"@,
        FetchError::MissingRedirectLocation => "redirect response did not have location header"@,
        FetchError::TooManyRedirects => "Too many redirects"@,
        FetchError::UnknownStatusClass => "unknown http code"@,
        FetchError::NotImplemented => "not implemented"@,
    }
}

impl FetchError {
    /// A few words on the failure, for showing to a person.
    pub fn message(&self) -> (r: &'static str)
        ensures
            r@ == message_spec(*self),
    {
        match self {
            FetchError::MalformedURL => "could not parse url",
            FetchError::UnsupportedScheme => "unsupported scheme",
            FetchError::ConnectionFailure => "could not connect",
            FetchError::TlsHandshakeFailure => "could not create tls connection",
            FetchError::UnsupportedEncoding => "body is encoded, dont know how to handle that",
            FetchError::MalformedStatusLine => "status line could not be split in three",
            FetchError::MissingRedirectLocation => "redirect response did not have location header",
            FetchError::TooManyRedirects => "Too many redirects",
            FetchError::UnknownStatusClass => "unknown http code",
            FetchError::NotImplemented => "not implemented",
        }
    }
}

} // verus!
