//! What passes between the client and the transport that carries its
//! attempts: how to connect, and what to make of what came back.

use vstd::prelude::*;
use vstd::utf8::{decode_utf8, valid_utf8};
use crate::error::FetchError;

verus! {

/// How an attempt reaches its server.
#[derive(Debug, Clone, Copy, PartialEq, Eq, Structural)]
pub enum Transport {
    /// Over the connection as it is.
    Plain,
    /// Over TLS on the connection.
    Tls,
}

/// How an attempt ended on the wire.
#[derive(Debug, PartialEq)]
pub enum Reply {
    /// The server closed the stream after these bytes.
    Closed(Vec<u8>),
    /// The stream broke off after these bytes, without a proper close.
    CutOff(Vec<u8>),
    /// The connection could not be opened, written to or read from.
    ConnectionFailed,
    /// The TLS session could not be set up.
    HandshakeFailed,
}

/// What a `Reply` holds, as a byte sequence.
pub enum ReplyView {
    Closed(Seq<u8>),
    CutOff(Seq<u8>),
    ConnectionFailed,
    HandshakeFailed,
}

impl View for Reply {
    type V = ReplyView;

    open spec fn view(&self) -> ReplyView {
        match self {
            Reply::Closed(bytes) => ReplyView::Closed(bytes@),
            Reply::CutOff(bytes) => ReplyView::CutOff(bytes@),
            Reply::ConnectionFailed => ReplyView::ConnectionFailed,
            Reply::HandshakeFailed => ReplyView::HandshakeFailed,
        }
    }
}

/// The text that bytes stand for when every run of them that is no UTF-8 is
/// read as the replacement character.
pub uninterp spec fn lossy_text(bytes: Seq<u8>) -> Seq<char>;

/// The text that the bytes of a response stand for. Over a plain
/// connection they must be UTF-8; over TLS, what is not UTF-8 is replaced.
pub open spec fn decoded(transport: Transport, bytes: Seq<u8>) -> Result<Seq<char>, FetchError> {
    match transport {
        Transport::Plain => if valid_utf8(bytes) {
            Ok(decode_utf8(bytes))
        } else {
            Err(FetchError::ConnectionFailure)
        },
        Transport::Tls => Ok(lossy_text(bytes)),
    }
}

/// The text of the response that a reply carries. A stream that broke off
/// counts as closed over TLS, where servers often leave out the proper
/// close, and as a failure over a plain connection.
pub open spec fn reply_text(transport: Transport, reply: ReplyView) -> Result<
    Seq<char>,
    FetchError,
> {
    match reply {
        ReplyView::Closed(bytes) => decoded(transport, bytes),
        ReplyView::CutOff(bytes) => match transport {
            Transport::Plain => Err(FetchError::ConnectionFailure),
            Transport::Tls => decoded(transport, bytes),
        },
        ReplyView::ConnectionFailed => Err(FetchError::ConnectionFailure),
        ReplyView::HandshakeFailed => Err(FetchError::TlsHandshakeFailure),
    }
}

/// Calls `String::from_utf8`, which accepts the bytes that are UTF-8 and
/// hands them back as the text that they encode, and refuses all others.
#[verifier::external_body]
fn utf8_strict(bytes: Vec<u8>) -> (r: Option<String>)
    ensures
        match r {
            Some(text) => valid_utf8(bytes@) && text@ == decode_utf8(bytes@),
            None => !valid_utf8(bytes@),
        },
{
    String::from_utf8(bytes).ok()
}

/// Calls `String::from_utf8_lossy`, which hands bytes that are UTF-8 back
/// as the text that they encode. Of its result on other bytes the contract
/// only gives the name, `lossy_text`.
#[verifier::external_body]
fn utf8_lossy(bytes: &Vec<u8>) -> (r: String)
    ensures
        r@ == lossy_text(bytes@),
        valid_utf8(bytes@) ==> r@ == decode_utf8(bytes@),
{
    String::from_utf8_lossy(bytes).into_owned()
}

/// Reads the bytes of a response as text. Bytes that are UTF-8 are read as
/// the text that they encode, over either transport.
pub fn decode(transport: Transport, bytes: Vec<u8>) -> (r: Result<String, FetchError>)
    ensures
        match r {
            Ok(text) => decoded(transport, bytes@) == Ok::<Seq<char>, FetchError>(text@),
            Err(e) => decoded(transport, bytes@) == Err::<Seq<char>, FetchError>(e),
        },
        valid_utf8(bytes@) ==> (r matches Ok(text) && text@ == decode_utf8(bytes@)),
{
    match transport {
        Transport::Plain => match utf8_strict(bytes) {
            Some(text) => Ok(text),
            None => Err(FetchError::ConnectionFailure),
        },
        Transport::Tls => Ok(utf8_lossy(&bytes)),
    }
}

/// Takes what came back from an attempt, and hands out the text of the
/// response or the reason why there is none.
pub fn receive(transport: Transport, reply: Reply) -> (r: Result<String, FetchError>)
    ensures
        match r {
            Ok(text) => reply_text(transport, reply@) == Ok::<Seq<char>, FetchError>(text@),
            Err(e) => reply_text(transport, reply@) == Err::<Seq<char>, FetchError>(e),
        },
{
    match reply {
        Reply::Closed(bytes) => decode(transport, bytes),
        Reply::CutOff(bytes) => match transport {
            Transport::Plain => Err(FetchError::ConnectionFailure),
            Transport::Tls => decode(transport, bytes),
        },
        Reply::ConnectionFailed => Err(FetchError::ConnectionFailure),
        Reply::HandshakeFailed => Err(FetchError::TlsHandshakeFailure),
    }
}

} // verus!
