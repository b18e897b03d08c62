use browser::error::FetchError;
use browser::tls::{client_session, or_handshake_failure};

#[test]
fn session_for_a_dns_name() {
    assert!(client_session("example.com").is_ok());
    assert!(client_session("localhost").is_ok());
    assert!(client_session("sub.domain.example.org").is_ok());
}

#[test]
fn session_for_an_ip_address() {
    assert!(client_session("127.0.0.1").is_ok());
    assert!(client_session("::1").is_ok());
}

#[test]
fn no_session_for_what_is_no_server_name() {
    for host in ["", "exa mple.com", "example.com:443", "http://example.com", "a..b", "bücher.example"] {
        match client_session(host) {
            Err(e) => assert_eq!(e, FetchError::TlsHandshakeFailure),
            Ok(_) => panic!("{host:?} is no server name"),
        }
    }
}

#[test]
fn a_new_session_wants_to_write_its_hello() {
    let session = client_session("example.com").unwrap();
    assert!(session.is_handshaking());
    assert!(session.wants_write());
}

#[test]
fn every_failure_of_the_setup_is_a_handshake_failure() {
    assert_eq!(or_handshake_failure(Ok::<u8, &str>(7)), Ok(7));
    assert_eq!(or_handshake_failure(Err::<u8, &str>("no")), Err(FetchError::TlsHandshakeFailure));
    assert_eq!(or_handshake_failure(Err::<u8, ()>(())), Err(FetchError::TlsHandshakeFailure));
}
