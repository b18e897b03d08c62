//! The TLS side of an attempt: the session that the transport runs over its
//! connection. It is set up here, with the trust roots that are compiled in;
//! the handshake itself happens on the wire.

use vstd::prelude::*;
use crate::error::FetchError;

verus! {

/// A TLS session on the client's side. Nothing is known of what is inside.
#[verifier::external_type_specification]
#[verifier::external_body]
pub struct ExClientConnection(rustls::ClientConnection);

/// The settings of TLS sessions. Nothing is known of what is inside.
#[verifier::external_type_specification]
#[verifier::external_body]
pub struct ExClientConfig(rustls::ClientConfig);

/// A set of trusted root certificates. Nothing is known of what is inside.
#[verifier::external_type_specification]
#[verifier::external_body]
pub struct ExRootCertStore(rustls::RootCertStore);

/// The name of a server, as a TLS handshake asks for it. Nothing is known
/// of what is inside.
#[verifier::external_type_specification]
#[verifier::external_body]
pub struct ExServerName<'a>(rustls::pki_types::ServerName<'a>);

/// The failure of `rustls`. Nothing is known of what is inside.
#[verifier::external_type_specification]
#[verifier::external_body]
pub struct ExTlsError(rustls::Error);

/// The failure to read a server name. Nothing is known of what is inside.
#[verifier::external_type_specification]
#[verifier::external_body]
pub struct ExInvalidDnsNameError(rustls::pki_types::InvalidDnsNameError);

/// The text is one that `rustls` takes for the name of a server: a DNS name
/// or an IP address.
pub uninterp spec fn is_server_name(host: Seq<char>) -> bool;

/// Collects the root certificates of `webpki_roots::TLS_SERVER_ROOTS` into a
/// `rustls::RootCertStore`. Nothing is claimed of the result.
#[verifier::external_body]
fn trust_roots() -> rustls::RootCertStore {
    rustls::RootCertStore::from_iter(webpki_roots::TLS_SERVER_ROOTS.iter().cloned())
}

/// Builds a `rustls::ClientConfig` with `rustls::ClientConfig`'s builder:
/// the `ring` provider, the default protocol versions, the given roots, and
/// no client certificate. Nothing is claimed of the result.
#[verifier::external_body]
fn client_config(roots: rustls::RootCertStore) -> Result<rustls::ClientConfig, rustls::Error> {
    let provider = std::sync::Arc::new(rustls::crypto::ring::default_provider());
    let builder = rustls::ClientConfig::builder_with_provider(provider)
        .with_safe_default_protocol_versions()?;
    Ok(builder.with_root_certificates(roots).with_no_client_auth())
}

/// Calls `rustls::pki_types::ServerName::try_from` on a copy of `host`. The
/// contract only gives a name, `is_server_name`, to whether it succeeds.
#[verifier::external_body]
fn server_name(host: &str) -> (r: Result<
    rustls::pki_types::ServerName<'static>,
    rustls::pki_types::InvalidDnsNameError,
>)
    ensures
        r is Ok <==> is_server_name(host@),
{
    rustls::pki_types::ServerName::try_from(host.to_string())
}

/// Calls `rustls::ClientConnection::new`. Nothing is claimed of the result.
#[verifier::external_body]
fn new_connection(
    config: rustls::ClientConfig,
    name: rustls::pki_types::ServerName<'static>,
) -> Result<rustls::ClientConnection, rustls::Error> {
    rustls::ClientConnection::new(std::sync::Arc::new(config), name)
}

/// What a step of the setup comes to: its value where it succeeded, and a
/// `TlsHandshakeFailure` where it failed, whatever the failure was.
pub fn or_handshake_failure<T, E>(step: Result<T, E>) -> (r: Result<T, FetchError>)
    ensures
        match step {
            Ok(value) => r == Ok::<T, FetchError>(value),
            Err(_) => r == Err::<T, FetchError>(FetchError::TlsHandshakeFailure),
        },
{
    match step {
        Ok(value) => Ok(value),
        Err(_) => Err(FetchError::TlsHandshakeFailure),
    }
}

/// Sets up the TLS session in which `host` is asked for by name and the
/// server is held to the trust roots that are compiled in.
///
/// Every failure is a `TlsHandshakeFailure`, and a host that is no server
/// name is one. Whether the session comes about otherwise is up to `rustls`.
pub fn client_session(host: &str) -> (r: Result<rustls::ClientConnection, FetchError>)
    ensures
        r matches Err(e) ==> e == FetchError::TlsHandshakeFailure,
        !is_server_name(host@) ==> r is Err,
{
    let config = match or_handshake_failure(client_config(trust_roots())) {
        Err(e) => {
            return Err(e);
        },
        Ok(config) => config,
    };
    let name = match or_handshake_failure(server_name(host)) {
        Err(e) => {
            return Err(e);
        },
        Ok(name) => name,
    };
    or_handshake_failure(new_connection(config, name))
}

} // verus!
