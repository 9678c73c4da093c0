//! The load-balancer configuration: the server settings, the routes and
//! their backends, with the defaults that a configuration file may leave out.
use vstd::prelude::*;

use crate::text::push_str;

verus! {

#[derive(Debug, Clone, Copy, PartialEq, Eq, Structural)]
pub enum LogLevel {
    Debug,
    Info,
    Warn,
    Error,
}

/// Whether a character is an ASCII letter or digit.
pub open spec fn is_alphanumeric(c: char) -> bool {
    ('a' <= c && c <= 'z') || ('A' <= c && c <= 'Z') || ('0' <= c && c <= '9')
}

/// Wraps `rand::thread_rng().sample_iter(&Alphanumeric).take(len)`: `len`
/// characters drawn from the ASCII letters and digits. Which ones are drawn is
/// left open.
#[verifier::external_body]
pub(crate) fn random_string(len: usize) -> (s: String)
    ensures
        s@.len() == len,
        forall|i: int| 0 <= i < s@.len() ==> is_alphanumeric(#[trigger] s@[i]),
{
    rand::Rng::sample_iter(rand::thread_rng(), &rand::distributions::Alphanumeric).take(len).map(
        char::from,
    ).collect::<String>()
}

/// The certificate file used when none is configured.
pub fn default_tls_cert_file() -> (s: String)
    ensures
        s@ == "localhost.crt"@,
{
    "localhost.crt".to_string()
}

/// The key file used when none is configured.
pub fn default_tls_key_file() -> (s: String)
    ensures
        s@ == "localhost.key"@,
{
    "localhost.key".to_string()
}

/// Whether a text is `prefix`, a dash and seven random letters or digits.
pub open spec fn is_random_id(s: Seq<char>, prefix: Seq<char>) -> bool {
    &&& s.len() == prefix.len() + 8
    &&& s.take(prefix.len() as int) == prefix
    &&& s[prefix.len() as int] == '-'
    &&& forall|i: int| prefix.len() + 1 <= i < s.len() ==> is_alphanumeric(#[trigger] s[i])
}

/// An identifier made of `prefix`, a dash and seven random letters or digits.
pub fn random_default(prefix: &str) -> (s: String)
    ensures
        is_random_id(s@, prefix@),
{
    let r = random_string(7);
    let mut s = String::new();
    push_str(&mut s, prefix);
    push_str(&mut s, "-");
    push_str(&mut s, r.as_str());
    proof {
        reveal_strlit("-");
        assert(s@ == prefix@ + "-"@ + r@);
        assert(s@.take(prefix@.len() as int) =~= prefix@);
        assert forall|i: int| prefix@.len() + 1 <= i < s@.len() implies is_alphanumeric(
            #[trigger] s@[i],
        ) by {
            assert(s@[i] == r@[i - prefix@.len() - 1]);
        }
    }
    s
}

/// The identifier of a backend.
#[derive(Debug, Clone, PartialEq, Eq, Hash)]
pub struct BackendId(pub String);

/// The identifier of a route.
#[derive(Debug, Clone, PartialEq, Eq, Hash)]
pub struct RouteId(pub String);

impl Default for BackendId {
    /// A random identifier starting with `be-`.
    fn default() -> (r: BackendId)
        ensures
            is_random_id(r.0@, "be"@),
    {
        BackendId(random_default("be"))
    }
}

impl Default for RouteId {
    /// A random identifier starting with `rt-`.
    fn default() -> (r: RouteId)
        ensures
            is_random_id(r.0@, "rt"@),
    {
        RouteId(random_default("rt"))
    }
}

impl BackendId {
    pub fn as_str(&self) -> (s: &str)
        ensures
            s@ == self.0@,
    {
        self.0.as_str()
    }
}

impl RouteId {
    pub fn as_str(&self) -> (s: &str)
        ensures
            s@ == self.0@,
    {
        self.0.as_str()
    }
}

#[derive(Debug)]
pub struct Server {
    pub listen_ip: String,
    pub port: u16,
    pub log_level: LogLevel,
    pub enable_tls: bool,
    pub tls_cert_file: String,
    pub tls_key_file: String,
}

impl Default for Server {
    /// Listen on localhost:8000 at info level, without TLS, with the default
    /// certificate and key files.
    fn default() -> (s: Server)
        ensures
            s.listen_ip@ == "localhost"@,
            s.port == 8000,
            s.log_level == LogLevel::Info,
            !s.enable_tls,
            s.tls_cert_file@ == "localhost.crt"@,
            s.tls_key_file@ == "localhost.key"@,
    {
        Server {
            listen_ip: "localhost".to_string(),
            port: 8000,
            log_level: LogLevel::Info,
            enable_tls: false,
            tls_cert_file: default_tls_cert_file(),
            tls_key_file: default_tls_key_file(),
        }
    }
}

#[derive(Debug)]
pub struct Backend {
    pub id: BackendId,
    pub host: String,
    pub port: u16,
    pub enable_tls: bool,
    pub weight: u32,
}

impl Backend {
    /// The `host:port` address of the backend.
    pub fn address(&self) -> (s: String)
        ensures
            s@ == self.host@ + ":"@ + crate::text::decimal(self.port as nat),
    {
        let mut s = String::new();
        push_str(&mut s, self.host.as_str());
        push_str(&mut s, ":");
        crate::text::push_number(&mut s, self.port as u64, 10);
        s
    }
}

#[derive(Debug)]
pub struct Route {
    pub id: RouteId,
    pub location: String,
    pub host_header: Option<String>,
    pub backends: Vec<Backend>,
}

#[derive(Debug)]
pub struct Config {
    pub server: Server,
    pub routes: Vec<Route>,
}

impl Default for Config {
    /// The default server and no routes.
    fn default() -> (c: Config)
        ensures
            c.server.listen_ip@ == "localhost"@,
            c.server.port == 8000,
            c.server.log_level == LogLevel::Info,
            !c.server.enable_tls,
            c.server.tls_cert_file@ == "localhost.crt"@,
            c.server.tls_key_file@ == "localhost.key"@,
            c.routes@.len() == 0,
    {
        Config { server: Server::default(), routes: Vec::new() }
    }
}

/// A configuration that could not be read.
#[derive(Debug, Clone, PartialEq, Eq)]
pub struct ConfigError(pub String);

impl ConfigError {
    /// The error as a line of text.
    pub fn message(&self) -> (s: String)
        ensures
            s@ == "lbconfig error: "@ + self.0@,
    {
        let mut s = String::new();
        push_str(&mut s, "lbconfig error: ");
        push_str(&mut s, self.0.as_str());
        s
    }
}

} // verus!
