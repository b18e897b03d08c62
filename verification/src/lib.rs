//! The core of a small web browser.
//!
//! `url` reads URLs. `request` and `response` write and read the messages
//! of HTTP/1.1, with their `headers`. `http_client` fetches a resource and
//! follows redirects; it makes each attempt through a transport that its
//! caller hands it, and `transport` and `tls` hold what the two agree on.
//! `html` tells tags from text, and `fonts` and `layout` decide in which
//! face and where in the window each word is set. `text` holds the work on
//! character sequences that the others share, and `error` the ways in which
//! a fetch fails.

pub mod error;
pub mod fonts;
pub mod headers;
pub mod html;
pub mod http_client;
pub mod layout;
pub mod request;
pub mod response;
pub mod text;
pub mod tls;
pub mod transport;
pub mod url;
