use hype::client::{Client, ClientError};
use hype::lbconfig::{random_default, Backend, BackendId, Config, ConfigError, RouteId, Server};

#[test]
fn lbconfig_defaults() {
    let s = Server::default();
    assert_eq!(s.listen_ip, "localhost");
    assert_eq!(s.port, 8000);
    assert!(!s.enable_tls);
    assert_eq!(s.tls_cert_file, "localhost.crt");
    assert_eq!(s.tls_key_file, "localhost.key");
    assert!(Config::default().routes.is_empty());
}

#[test]
fn random_ids() {
    let id = BackendId::default();
    assert!(id.as_str().starts_with("be-"));
    assert_eq!(id.as_str().len(), 10);
    assert!(RouteId::default().as_str().starts_with("rt-"));
    let r = random_default("x");
    assert_eq!(r.len(), 9);
    assert!(r[2..].chars().all(|c| c.is_ascii_alphanumeric()));
}

#[test]
fn backend_address() {
    let b = Backend {
        id: BackendId("b".into()),
        host: "example.com".into(),
        port: 8080,
        enable_tls: false,
        weight: 1,
    };
    assert_eq!(b.address(), "example.com:8080");
}

#[test]
fn error_messages() {
    assert_eq!(ConfigError("bad".into()).message(), "lbconfig error: bad");
    assert_eq!(ClientError::ConnectionClosed.message(), "connection closed");
    assert_eq!(ClientError::ParseError("x".into()).message(), "could not parse response: x");
    let mut c = Client::new("h:1");
    c.enable_tls("h");
    assert!(c.enable_tls);
}
