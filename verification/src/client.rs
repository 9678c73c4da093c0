//! The settings of an HTTP client connection and the errors a client meets.
use vstd::prelude::*;

use crate::text::{push_str, Text};

verus! {

/// Errors returned by the client.
#[derive(Debug)]
pub enum ClientError {
    /// A DNS lookup failed.
    LookupError(String),
    /// The TCP connection could not be made.
    ConnectionError,
    ConnectionBroken,
    ConnectionClosed,
    /// The response could not be parsed.
    ParseError(String),
    TLSError(String),
    SendError(String),
    RecvError(String),
    /// The connection could not be closed.
    ShutdownError(String),
    /// Another unexpected condition.
    InternalError(String),
}

/// The text of a client error.
pub open spec fn client_error_text(e: ClientError) -> Seq<char> {
    match e {
        ClientError::LookupError(a) => "could not lookup address: "@ + a@,
        ClientError::ConnectionError => "could not connect to backend"@,
        ClientError::ConnectionBroken => "connection broken"@,
        ClientError::ConnectionClosed => "connection closed"@,
        ClientError::TLSError(m) => "TLS error: "@ + m@,
        ClientError::ShutdownError(m) => "error while closing socket: "@ + m@,
        ClientError::SendError(m) => "could not send data to backend: "@ + m@,
        ClientError::ParseError(m) => "could not parse response: "@ + m@,
        ClientError::RecvError(m) => "could not receive data from backend: "@ + m@,
        ClientError::InternalError(m) => "internal error: "@ + m@,
    }
}

fn prefixed(prefix: &str, rest: &String) -> (s: String)
    ensures
        s@ == prefix@ + rest@,
{
    let mut s = String::new();
    push_str(&mut s, prefix);
    push_str(&mut s, rest.as_str());
    s
}

impl ClientError {
    /// The error as a line of text.
    pub fn message(&self) -> (s: String)
        ensures
            s@ == client_error_text(*self),
    {
        match self {
            ClientError::LookupError(a) => prefixed("could not lookup address: ", a),
            ClientError::ConnectionError => "could not connect to backend".to_string(),
            ClientError::ConnectionBroken => "connection broken".to_string(),
            ClientError::ConnectionClosed => "connection closed".to_string(),
            ClientError::TLSError(m) => prefixed("TLS error: ", m),
            ClientError::ShutdownError(m) => prefixed("error while closing socket: ", m),
            ClientError::SendError(m) => prefixed("could not send data to backend: ", m),
            ClientError::ParseError(m) => prefixed("could not parse response: ", m),
            ClientError::RecvError(m) => prefixed("could not receive data from backend: ", m),
            ClientError::InternalError(m) => prefixed("internal error: ", m),
        }
    }
}

/// Where a client connects: a `host:port` address, and the server name to
/// check when TLS is on.
#[derive(Debug)]
pub struct Client {
    pub address: String,
    pub enable_tls: bool,
    pub tls_server_name: String,
}

impl Client {
    /// A client for `host:port`, without TLS.
    pub fn new<T: Text>(address: T) -> (c: Client)
        ensures
            c.address@ == address.text(),
            !c.enable_tls,
            c.tls_server_name@ == Seq::<char>::empty(),
    {
        Client { address: address.to_text(), enable_tls: false, tls_server_name: String::new() }
    }

    /// Turns TLS on, checking the given server name.
    pub fn enable_tls<T: Text>(&mut self, server_name: T) -> (r: &mut Client)
        ensures
            r.enable_tls,
            r.tls_server_name@ == server_name.text(),
            r.address == old(self).address,
            *final(self) == *final(r),
    {
        self.enable_tls = true;
        self.tls_server_name = server_name.to_text();
        self
    }
}

} // verus!
