//! The file-server configuration, read from YAML documents.
//!
//! A document is held as a `Yaml` value with the shape of a YAML node; the
//! lookups mirror those of a YAML value (tags are looked through, a map is
//! indexed by string keys).
use vstd::prelude::*;

use crate::text::str_eq;

verus! {

/// A YAML node. A number is held by its value when it is an integer that
/// fits `u64`, and as `None` otherwise (negative or fractional).
#[derive(Debug)]
pub enum Yaml {
    Null,
    Bool(bool),
    Number(Option<u64>),
    Str(String),
    Sequence(Vec<Yaml>),
    Mapping(Vec<(Yaml, Yaml)>),
    Tagged(Box<Yaml>),
}

/// The node under its tags.
pub open spec fn untag(v: Yaml) -> Yaml
    decreases v,
{
    match v {
        Yaml::Tagged(b) => untag(*b),
        _ => v,
    }
}

/// The value of the first entry whose key is the string `key`.
pub open spec fn entry_value(entries: Seq<(Yaml, Yaml)>, key: Seq<char>) -> Option<Yaml>
    decreases entries.len(),
{
    if entries.len() == 0 {
        None
    } else {
        match entries[0].0 {
            Yaml::Str(s) if s@ == key => Some(entries[0].1),
            _ => entry_value(entries.drop_first(), key),
        }
    }
}

/// The value under a string key of a map.
pub open spec fn yaml_get(v: Yaml, key: Seq<char>) -> Option<Yaml> {
    match untag(v) {
        Yaml::Mapping(entries) => entry_value(entries@, key),
        _ => None,
    }
}

pub open spec fn yaml_str(v: Yaml) -> Option<Seq<char>> {
    match untag(v) {
        Yaml::Str(s) => Some(s@),
        _ => None,
    }
}

pub open spec fn yaml_u64(v: Yaml) -> Option<u64> {
    match untag(v) {
        Yaml::Number(n) => n,
        _ => None,
    }
}

pub open spec fn yaml_bool(v: Yaml) -> Option<bool> {
    match untag(v) {
        Yaml::Bool(b) => Some(b),
        _ => None,
    }
}

pub open spec fn yaml_seq(v: Yaml) -> Option<Seq<Yaml>> {
    match untag(v) {
        Yaml::Sequence(items) => Some(items@),
        _ => None,
    }
}

fn untag_ref(v: &Yaml) -> (r: &Yaml)
    ensures
        *r == untag(*v),
    decreases v,
{
    match v {
        Yaml::Tagged(b) => untag_ref(b),
        _ => v,
    }
}

impl Yaml {
    /// The value under a string key, when this is a map.
    pub fn get(&self, key: &str) -> (r: Option<&Yaml>)
        ensures
            r matches Some(x) ==> yaml_get(*self, key@) == Some(*x),
            r is None ==> yaml_get(*self, key@) is None,
    {
        match untag_ref(self) {
            Yaml::Mapping(entries) => {
                let mut i: usize = 0;
                assert(entries@.skip(0) =~= entries@);
                while i < entries.len()
                    invariant
                        i <= entries.len(),
                        yaml_get(*self, key@) == entry_value(entries@.skip(i as int), key@),
                    decreases entries.len() - i,
                {
                    assert(entries@.skip(i as int).drop_first() =~= entries@.skip(i + 1));
                    assert(entries@.skip(i as int)[0] == entries@[i as int]);
                    match &entries[i].0 {
                        Yaml::Str(s) => {
                            if str_eq(s.as_str(), key) {
                                return Some(&entries[i].1);
                            }
                        },
                        _ => {},
                    }
                    i = i + 1;
                }
                assert(entries@.skip(i as int).len() == 0);
                None
            },
            _ => None,
        }
    }

    /// The string, when this is one.
    pub fn as_str(&self) -> (r: Option<&String>)
        ensures
            r matches Some(s) ==> yaml_str(*self) == Some(s@),
            r is None ==> yaml_str(*self) is None,
    {
        match untag_ref(self) {
            Yaml::Str(s) => Some(s),
            _ => None,
        }
    }

    /// The number, when this is an integer that fits `u64`.
    pub fn as_u64(&self) -> (r: Option<u64>)
        ensures
            r == yaml_u64(*self),
    {
        match untag_ref(self) {
            Yaml::Number(n) => *n,
            _ => None,
        }
    }

    /// The boolean, when this is one.
    pub fn as_bool(&self) -> (r: Option<bool>)
        ensures
            r == yaml_bool(*self),
    {
        match untag_ref(self) {
            Yaml::Bool(b) => Some(*b),
            _ => None,
        }
    }

    /// The items, when this is a sequence.
    pub fn as_sequence(&self) -> (r: Option<&Vec<Yaml>>)
        ensures
            r matches Some(items) ==> yaml_seq(*self) == Some(items@),
            r is None ==> yaml_seq(*self) is None,
    {
        match untag_ref(self) {
            Yaml::Sequence(items) => Some(items),
            _ => None,
        }
    }
}

#[derive(Debug)]
pub struct FileHandlerParams {
    pub fs_path: String,
    pub trailing_slashes: bool,
}

#[derive(Debug)]
pub struct WebHandlerParams {
    pub webroot: String,
    pub index: String,
    pub hosts: Vec<String>,
    pub trailing_slashes: bool,
}

#[derive(Debug)]
pub enum Handler {
    File(FileHandlerParams),
    Web(WebHandlerParams),
}

#[derive(Debug)]
pub struct Route {
    pub location: String,
    pub handler: Handler,
}

#[derive(Debug, Clone, Copy, PartialEq, Eq, Structural)]
pub enum LogLevel {
    Debug,
    Info,
    Warn,
    Error,
}

#[derive(Debug)]
pub struct Server {
    pub listen_ip: String,
    pub port: u16,
    pub log_level: LogLevel,
}

#[derive(Debug)]
pub struct Config {
    pub server: Server,
    pub routes: Vec<Route>,
}

#[derive(Debug, PartialEq, Eq)]
pub enum ConfigError {
    MissingField(String),
    MalformedField(String),
}

pub enum HandlerView {
    File { fs_path: Seq<char>, trailing_slashes: bool },
    Web { webroot: Seq<char>, index: Seq<char>, hosts: Seq<Seq<char>>, trailing_slashes: bool },
}

pub struct RouteView {
    pub location: Seq<char>,
    pub handler: HandlerView,
}

pub struct ServerView {
    pub listen_ip: Seq<char>,
    pub port: u16,
    pub log_level: LogLevel,
}

pub struct ConfigView {
    pub server: ServerView,
    pub routes: Seq<RouteView>,
}

pub enum ConfigErrorView {
    MissingField(Seq<char>),
    MalformedField(Seq<char>),
}

impl Handler {
    pub open spec fn view(&self) -> HandlerView {
        match self {
            Handler::File(p) => HandlerView::File { fs_path: p.fs_path@, trailing_slashes: p.trailing_slashes },
            Handler::Web(p) => HandlerView::Web {
                webroot: p.webroot@,
                index: p.index@,
                hosts: p.hosts.deep_view(),
                trailing_slashes: p.trailing_slashes,
            },
        }
    }
}

impl Route {
    pub open spec fn view(&self) -> RouteView {
        RouteView { location: self.location@, handler: self.handler@ }
    }
}

impl Server {
    pub open spec fn view(&self) -> ServerView {
        ServerView { listen_ip: self.listen_ip@, port: self.port, log_level: self.log_level }
    }
}

impl Config {
    pub open spec fn view(&self) -> ConfigView {
        ConfigView { server: self.server@, routes: self.routes@.map_values(|r: Route| r@) }
    }
}

impl ConfigError {
    pub open spec fn view(&self) -> ConfigErrorView {
        match self {
            ConfigError::MissingField(f) => ConfigErrorView::MissingField(f@),
            ConfigError::MalformedField(f) => ConfigErrorView::MalformedField(f@),
        }
    }

    /// The error as a line of text.
    pub fn message(&self) -> (s: String)
        ensures
            s@ == (match self@ {
                ConfigErrorView::MissingField(f) => "ConfigError: missing field: "@ + f,
                ConfigErrorView::MalformedField(f) => "ConfigError: malformed field: "@ + f,
            }),
    {
        let mut s = String::new();
        match self {
            ConfigError::MissingField(f) => {
                crate::text::push_str(&mut s, "ConfigError: missing field: ");
                crate::text::push_str(&mut s, f.as_str());
            },
            ConfigError::MalformedField(f) => {
                crate::text::push_str(&mut s, "ConfigError: malformed field: ");
                crate::text::push_str(&mut s, f.as_str());
            },
        }
        s
    }
}

/// The configuration before any document is read: listen on 127.0.0.1:8000,
/// log at info level, no routes.
pub open spec fn default_config() -> ConfigView {
    ConfigView {
        server: ServerView { listen_ip: "127.0.0.1"@, port: 8000, log_level: LogLevel::Info },
        routes: Seq::empty(),
    }
}

/// The log level with the given name; `info` for any other name.
pub open spec fn level_named(s: Seq<char>) -> LogLevel {
    if s == "debug"@ {
        LogLevel::Debug
    } else if s == "info"@ {
        LogLevel::Info
    } else if s == "warn"@ {
        LogLevel::Warn
    } else if s == "error"@ {
        LogLevel::Error
    } else {
        LogLevel::Info
    }
}

/// The string under a key, or a default when it is absent or not a string.
pub open spec fn str_or(v: Option<Yaml>, d: Seq<char>) -> Seq<char> {
    match v {
        Some(x) => match yaml_str(x) {
            Some(s) => s,
            None => d,
        },
        None => d,
    }
}

/// The boolean under a key, or a default when it is absent or not a boolean.
pub open spec fn bool_or(v: Option<Yaml>, d: bool) -> bool {
    match v {
        Some(x) => match yaml_bool(x) {
            Some(b) => b,
            None => d,
        },
        None => d,
    }
}

/// The strings of a sequence under a key (an item that is not a string
/// counts as empty); empty when the key is absent or not a sequence.
pub open spec fn str_list(v: Option<Yaml>) -> Seq<Seq<char>> {
    match v {
        Some(x) => match yaml_seq(x) {
            Some(items) => items.map_values(|i: Yaml| str_or(Some(i), Seq::empty())),
            None => Seq::empty(),
        },
        None => Seq::empty(),
    }
}

/// One item of the `server` sequence: `listen_ip` (a string) and `port` (a
/// number, kept modulo 2^16) are required, `log_level` is optional.
pub open spec fn server_item(sv: ServerView, s: Yaml) -> Result<ServerView, ConfigErrorView> {
    match yaml_get(s, "listen_ip"@) {
        None => Err(ConfigErrorView::MissingField("listen_ip"@)),
        Some(ipv) => match yaml_str(ipv) {
            None => Err(ConfigErrorView::MalformedField("listen_ip"@)),
            Some(ip) => match yaml_get(s, "port"@) {
                None => Err(ConfigErrorView::MissingField("port"@)),
                Some(pv) => match yaml_u64(pv) {
                    None => Err(ConfigErrorView::MalformedField("port"@)),
                    Some(n) => Ok(
                        ServerView {
                            listen_ip: ip,
                            port: n as u16,
                            log_level: match yaml_get(s, "log_level"@) {
                                Some(l) => level_named(str_or(Some(l), "info"@)),
                                None => sv.log_level,
                            },
                        },
                    ),
                },
            },
        },
    }
}

/// The items of the `server` sequence applied in order.
pub open spec fn servers(sv: ServerView, items: Seq<Yaml>) -> Result<ServerView, ConfigErrorView>
    decreases items.len(),
{
    if items.len() == 0 {
        Ok(sv)
    } else {
        match servers(sv, items.drop_last()) {
            Ok(s2) => server_item(s2, items.last()),
            Err(e) => Err(e),
        }
    }
}

/// One item of the `routes` sequence: a `location` and a `handler` (`file`
/// or `web`) with the handler's parameters and their defaults.
pub open spec fn route_of(r: Yaml) -> Result<RouteView, ConfigErrorView> {
    match yaml_get(r, "location"@) {
        None => Err(ConfigErrorView::MissingField("route:location"@)),
        Some(lv) => match yaml_str(lv) {
            None => Err(ConfigErrorView::MalformedField("route:location"@)),
            Some(location) => match yaml_get(r, "handler"@) {
                None => Err(ConfigErrorView::MissingField("route:handler"@)),
                Some(hv) => match yaml_str(hv) {
                    None => Err(ConfigErrorView::MalformedField("route:handler"@)),
                    Some(name) => if name == "file"@ {
                        Ok(
                            RouteView {
                                location,
                                handler: HandlerView::File {
                                    fs_path: str_or(yaml_get(r, "fs_path"@), "."@),
                                    trailing_slashes: bool_or(yaml_get(r, "trailing_slashes"@), true),
                                },
                            },
                        )
                    } else if name == "web"@ {
                        Ok(
                            RouteView {
                                location,
                                handler: HandlerView::Web {
                                    webroot: str_or(yaml_get(r, "webroot"@), "."@),
                                    index: str_or(yaml_get(r, "index"@), "index.html"@),
                                    hosts: str_list(yaml_get(r, "hosts"@)),
                                    trailing_slashes: bool_or(yaml_get(r, "trailing_slashes"@), true),
                                },
                            },
                        )
                    } else {
                        Err(ConfigErrorView::MalformedField("route:handler: "@ + name))
                    },
                },
            },
        },
    }
}

/// The routes of a `routes` sequence appended in order.
pub open spec fn routes(acc: Seq<RouteView>, items: Seq<Yaml>) -> Result<Seq<RouteView>, ConfigErrorView>
    decreases items.len(),
{
    if items.len() == 0 {
        Ok(acc)
    } else {
        match routes(acc, items.drop_last()) {
            Ok(rs) => match route_of(items.last()) {
                Ok(r) => Ok(rs.push(r)),
                Err(e) => Err(e),
            },
            Err(e) => Err(e),
        }
    }
}

/// One document: a `server` sequence and a `routes` sequence, both required.
pub open spec fn apply_document(c: ConfigView, doc: Yaml) -> Result<ConfigView, ConfigErrorView> {
    match yaml_get(doc, "server"@) {
        None => Err(ConfigErrorView::MissingField("server"@)),
        Some(sv) => match yaml_seq(sv) {
            None => Err(ConfigErrorView::MalformedField("server"@)),
            Some(items) => match servers(c.server, items) {
                Err(e) => Err(e),
                Ok(server) => match yaml_get(doc, "routes"@) {
                    None => Err(ConfigErrorView::MissingField("routes"@)),
                    Some(rv) => match yaml_seq(rv) {
                        None => Err(ConfigErrorView::MalformedField("routes"@)),
                        Some(ritems) => match routes(c.routes, ritems) {
                            Err(e) => Err(e),
                            Ok(rs) => Ok(ConfigView { server, routes: rs }),
                        },
                    },
                },
            },
        },
    }
}

/// The documents applied in order to the default configuration; the first
/// error is the result.
pub open spec fn config_of(docs: Seq<Yaml>) -> Result<ConfigView, ConfigErrorView>
    decreases docs.len(),
{
    if docs.len() == 0 {
        Ok(default_config())
    } else {
        match config_of(docs.drop_last()) {
            Ok(c) => apply_document(c, docs.last()),
            Err(e) => Err(e),
        }
    }
}

fn str_field(v: Option<&Yaml>, d: &str) -> (r: String)
    ensures
        r@ == str_or(
            match v {
                Some(x) => Some(*x),
                None => None,
            },
            d@,
        ),
{
    match v {
        Some(x) => match x.as_str() {
            Some(s) => s.clone(),
            None => d.to_string(),
        },
        None => d.to_string(),
    }
}

fn bool_field(v: Option<&Yaml>, d: bool) -> (r: bool)
    ensures
        r == bool_or(
            match v {
                Some(x) => Some(*x),
                None => None,
            },
            d,
        ),
{
    match v {
        Some(x) => match x.as_bool() {
            Some(b) => b,
            None => d,
        },
        None => d,
    }
}

fn str_list_field(v: Option<&Yaml>) -> (r: Vec<String>)
    ensures
        r.deep_view() == str_list(
            match v {
                Some(x) => Some(*x),
                None => None,
            },
        ),
{
    let mut out: Vec<String> = Vec::new();
    match v {
        Some(x) => match x.as_sequence() {
            Some(items) => {
                let ghost want = items@.map_values(|i: Yaml| str_or(Some(i), Seq::empty()));
                let mut i: usize = 0;
                while i < items.len()
                    invariant
                        i <= items.len(),
                        want == items@.map_values(|i: Yaml| str_or(Some(i), Seq::empty())),
                        out.deep_view() == want.take(i as int),
                    decreases items.len() - i,
                {
                    let s = str_field(Some(&items[i]), "");
                    proof {
                        reveal_strlit("");
                    }
                    assert(want[i as int] == s@);
                    let ghost before = out.deep_view();
                    out.push(s);
                    assert(out.deep_view() =~= before.push(s@));
                    assert(want.take(i + 1) =~= want.take(i as int).push(want[i as int]));
                    i = i + 1;
                }
                assert(want.take(items.len() as int) =~= want);
                out
            },
            None => {
                assert(out.deep_view() =~= Seq::<Seq<char>>::empty());
                out
            },
        },
        None => {
            assert(out.deep_view() =~= Seq::<Seq<char>>::empty());
            out
        },
    }
}

fn level_of(s: &str) -> (r: LogLevel)
    ensures
        r == level_named(s@),
{
    if str_eq(s, "debug") {
        LogLevel::Debug
    } else if str_eq(s, "info") {
        LogLevel::Info
    } else if str_eq(s, "warn") {
        LogLevel::Warn
    } else if str_eq(s, "error") {
        LogLevel::Error
    } else {
        LogLevel::Info
    }
}

fn apply_server_item(sv: &Server, s: &Yaml) -> (r: Result<Server, ConfigError>)
    ensures
        match server_item(sv@, *s) {
            Ok(v) => r matches Ok(x) && x@ == v,
            Err(e) => r matches Err(x) && x@ == e,
        },
{
    let ip = match s.get("listen_ip") {
        None => {
            return Err(ConfigError::MissingField("listen_ip".to_string()));
        },
        Some(v) => match v.as_str() {
            None => {
                return Err(ConfigError::MalformedField("listen_ip".to_string()));
            },
            Some(ip) => ip.clone(),
        },
    };
    let port = match s.get("port") {
        None => {
            return Err(ConfigError::MissingField("port".to_string()));
        },
        Some(v) => match v.as_u64() {
            None => {
                return Err(ConfigError::MalformedField("port".to_string()));
            },
            Some(n) => n as u16,
        },
    };
    let log_level = match s.get("log_level") {
        Some(l) => {
            let name = str_field(Some(l), "info");
            level_of(name.as_str())
        },
        None => sv.log_level,
    };
    Ok(Server { listen_ip: ip, port, log_level })
}

fn route_from(r: &Yaml) -> (out: Result<Route, ConfigError>)
    ensures
        match route_of(*r) {
            Ok(v) => out matches Ok(x) && x@ == v,
            Err(e) => out matches Err(x) && x@ == e,
        },
{
    let location = match r.get("location") {
        None => {
            return Err(ConfigError::MissingField("route:location".to_string()));
        },
        Some(v) => match v.as_str() {
            None => {
                return Err(ConfigError::MalformedField("route:location".to_string()));
            },
            Some(l) => l.clone(),
        },
    };
    let name = match r.get("handler") {
        None => {
            return Err(ConfigError::MissingField("route:handler".to_string()));
        },
        Some(v) => match v.as_str() {
            None => {
                return Err(ConfigError::MalformedField("route:handler".to_string()));
            },
            Some(h) => h.clone(),
        },
    };
    if str_eq(name.as_str(), "file") {
        let fs_path = str_field(r.get("fs_path"), ".");
        let trailing_slashes = bool_field(r.get("trailing_slashes"), true);
        Ok(Route { location, handler: Handler::File(FileHandlerParams { fs_path, trailing_slashes }) })
    } else if str_eq(name.as_str(), "web") {
        let webroot = str_field(r.get("webroot"), ".");
        let index = str_field(r.get("index"), "index.html");
        let hosts = str_list_field(r.get("hosts"));
        let trailing_slashes = bool_field(r.get("trailing_slashes"), true);
        Ok(
            Route {
                location,
                handler: Handler::Web(WebHandlerParams { webroot, index, hosts, trailing_slashes }),
            },
        )
    } else {
        let mut msg = String::new();
        crate::text::push_str(&mut msg, "route:handler: ");
        crate::text::push_str(&mut msg, name.as_str());
        Err(ConfigError::MalformedField(msg))
    }
}

#[verifier::loop_isolation(false)]
fn apply_doc(config: &mut Config, doc: &Yaml) -> (r: Result<(), ConfigError>)
    ensures
        match apply_document(old(config)@, *doc) {
            Ok(c) => r is Ok && final(config)@ == c,
            Err(e) => r matches Err(x) && x@ == e,
        },
{
    let server_items = match doc.get("server") {
        None => {
            return Err(ConfigError::MissingField("server".to_string()));
        },
        Some(v) => match v.as_sequence() {
            None => {
                return Err(ConfigError::MalformedField("server".to_string()));
            },
            Some(items) => items,
        },
    };
    let mut server = Server {
        listen_ip: config.server.listen_ip.clone(),
        port: config.server.port,
        log_level: config.server.log_level,
    };
    let mut i: usize = 0;
    assert(server_items@.take(0) =~= Seq::<Yaml>::empty());
    while i < server_items.len()
        invariant
            i <= server_items.len(),
            servers(config@.server, server_items@.take(i as int)) == Ok::<ServerView, ConfigErrorView>(
                server@,
            ),
        decreases server_items.len() - i,
    {
        assert(server_items@.take(i + 1).drop_last() =~= server_items@.take(i as int));
        match apply_server_item(&server, &server_items[i]) {
            Ok(s2) => {
                server = s2;
            },
            Err(e) => {
                proof {
                    lemma_servers_err(config@.server, server_items@, i as int + 1);
                }
                return Err(e);
            },
        }
        i = i + 1;
    }
    assert(server_items@.take(server_items.len() as int) =~= server_items@);
    let route_items = match doc.get("routes") {
        None => {
            return Err(ConfigError::MissingField("routes".to_string()));
        },
        Some(v) => match v.as_sequence() {
            None => {
                return Err(ConfigError::MalformedField("routes".to_string()));
            },
            Some(items) => items,
        },
    };
    let ghost acc = config@.routes;
    let ghost start = config@;
    let mut j: usize = 0;
    assert(route_items@.take(0) =~= Seq::<Yaml>::empty());
    while j < route_items.len()
        invariant
            j <= route_items.len(),
            config@.server == start.server,
            routes(acc, route_items@.take(j as int)) == Ok::<Seq<RouteView>, ConfigErrorView>(
                config@.routes,
            ),
        decreases route_items.len() - j,
    {
        assert(route_items@.take(j + 1).drop_last() =~= route_items@.take(j as int));
        match route_from(&route_items[j]) {
            Ok(route) => {
                let ghost before = config@.routes;
                config.routes.push(route);
                assert(config@.routes =~= before.push(route@));
            },
            Err(e) => {
                proof {
                    lemma_routes_err(acc, route_items@, j as int + 1);
                }
                return Err(e);
            },
        }
        j = j + 1;
    }
    assert(route_items@.take(route_items.len() as int) =~= route_items@);
    config.server = server;
    Ok(())
}

#[verifier::external_type_specification]
#[verifier::external_body]
pub struct ExYamlValue(serde_yaml::Value);

/// The documents that `serde_yaml` reads from a text, in order, up to the
/// first one that does not deserialize into a YAML value, and whether there
/// is such a document.
pub uninterp spec fn yaml_documents(text: Seq<char>) -> (Seq<Yaml>, bool);

/// Converts a `serde_yaml::Value` into a `Yaml` node, variant for variant; a
/// number becomes its `as_u64`. Nothing is stated of it here: the documents
/// it yields are stated by `parse_yaml_documents`.
#[verifier::external_body]
fn yaml_of(v: &serde_yaml::Value) -> Yaml {
    match v {
        serde_yaml::Value::Null => Yaml::Null,
        serde_yaml::Value::Bool(b) => Yaml::Bool(*b),
        serde_yaml::Value::Number(n) => Yaml::Number(n.as_u64()),
        serde_yaml::Value::String(s) => Yaml::Str(s.clone()),
        serde_yaml::Value::Sequence(items) => Yaml::Sequence(items.iter().map(yaml_of).collect()),
        serde_yaml::Value::Mapping(m) => Yaml::Mapping(
            m.iter().map(|(k, v)| (yaml_of(k), yaml_of(v))).collect(),
        ),
        serde_yaml::Value::Tagged(t) => Yaml::Tagged(Box::new(yaml_of(&t.value))),
    }
}

/// Wraps `serde_yaml::Deserializer::from_str` and `Value::deserialize` on each
/// document it yields: the documents read up to the first that fails to
/// deserialize, and whether one failed. What they are depends on the text
/// alone and is left as the name `yaml_documents`.
#[verifier::external_body]
fn parse_yaml_documents(text: &str) -> (r: (Vec<Yaml>, bool))
    ensures
        (r.0@, r.1) == yaml_documents(text@),
{
    let mut docs: Vec<Yaml> = Vec::new();
    for document in serde_yaml::Deserializer::from_str(text) {
        match <serde_yaml::Value as serde::Deserialize>::deserialize(document) {
            Ok(value) => docs.push(yaml_of(&value)),
            Err(_) => return (docs, true),
        }
    }
    (docs, false)
}

/// What reading a configuration text gives: `None` where a document that is
/// reached fails to deserialize, else the configuration or the first error.
pub open spec fn config_from_text(text: Seq<char>) -> Option<Result<ConfigView, ConfigErrorView>> {
    let (docs, failed) = yaml_documents(text);
    match config_of(docs) {
        Err(e) => Some(Err(e)),
        Ok(c) => if failed {
            None
        } else {
            Some(Ok(c))
        },
    }
}

impl Config {
    /// Reads the configuration from YAML text: the documents are applied in
    /// order to the defaults. `None` where a document that is reached does
    /// not deserialize into a YAML value.
    pub fn from(config_str: &str) -> (r: Option<Result<Config, ConfigError>>)
        ensures
            match config_from_text(config_str@) {
                None => r is None,
                Some(Ok(c)) => r matches Some(Ok(x)) && x@ == c,
                Some(Err(e)) => r matches Some(Err(x)) && x@ == e,
            },
    {
        let (docs, failed) = parse_yaml_documents(config_str);
        match Config::from_documents(docs.as_slice()) {
            Err(e) => Some(Err(e)),
            Ok(c) => if failed {
                None
            } else {
                Some(Ok(c))
            },
        }
    }
}

impl Config {
    /// Reads the configuration from YAML documents, applied one after another
    /// to the defaults; exactly what `config_of` says.
    pub fn from_documents(docs: &[Yaml]) -> (r: Result<Config, ConfigError>)
        ensures
            match config_of(docs@) {
                Ok(c) => r matches Ok(x) && x@ == c,
                Err(e) => r matches Err(x) && x@ == e,
            },
    {
        let mut config = Config {
            routes: Vec::new(),
            server: Server { listen_ip: "127.0.0.1".to_string(), port: 8000, log_level: LogLevel::Info },
        };
        assert(config@.routes =~= Seq::<RouteView>::empty());
        assert(docs@.take(0) =~= Seq::<Yaml>::empty());
        let mut d: usize = 0;
        while d < docs.len()
            invariant
                d <= docs.len(),
                config_of(docs@.take(d as int)) == Ok::<ConfigView, ConfigErrorView>(config@),
            decreases docs.len() - d,
        {
            assert(docs@.take(d + 1).drop_last() =~= docs@.take(d as int));
            assert(docs@.take(d + 1).last() == docs@[d as int]);
            match apply_doc(&mut config, &docs[d]) {
                Ok(()) => {},
                Err(e) => {
                    proof {
                        lemma_config_err(docs@, d as int + 1);
                    }
                    return Err(e);
                },
            }
            d = d + 1;
        }
        assert(docs@.take(docs.len() as int) =~= docs@);
        Ok(config)
    }
}

proof fn lemma_servers_err(sv: ServerView, items: Seq<Yaml>, i: int)
    requires
        0 <= i <= items.len(),
        servers(sv, items.take(i)) is Err,
    ensures
        servers(sv, items) == servers(sv, items.take(i)),
    decreases items.len(),
{
    if i == items.len() {
        assert(items.take(i) =~= items);
    } else {
        assert(items.drop_last().take(i) =~= items.take(i));
        lemma_servers_err(sv, items.drop_last(), i);
    }
}

proof fn lemma_routes_err(acc: Seq<RouteView>, items: Seq<Yaml>, i: int)
    requires
        0 <= i <= items.len(),
        routes(acc, items.take(i)) is Err,
    ensures
        routes(acc, items) == routes(acc, items.take(i)),
    decreases items.len(),
{
    if i == items.len() {
        assert(items.take(i) =~= items);
    } else {
        assert(items.drop_last().take(i) =~= items.take(i));
        lemma_routes_err(acc, items.drop_last(), i);
    }
}

proof fn lemma_config_err(docs: Seq<Yaml>, i: int)
    requires
        0 <= i <= docs.len(),
        config_of(docs.take(i)) is Err,
    ensures
        config_of(docs) == config_of(docs.take(i)),
    decreases docs.len(),
{
    if i == docs.len() {
        assert(docs.take(i) =~= docs);
    } else {
        assert(docs.drop_last().take(i) =~= docs.take(i));
        lemma_config_err(docs.drop_last(), i);
    }
}


/// A log level is read from its name: `debug`, `info`, `warn` and `error`
/// give the level of that name, and any other text gives `Info`.
pub proof fn log_level_names(s: Seq<char>)
    ensures
        level_named("debug"@) == LogLevel::Debug,
        level_named("info"@) == LogLevel::Info,
        level_named("warn"@) == LogLevel::Warn,
        level_named("error"@) == LogLevel::Error,
        s != "debug"@ && s != "warn"@ && s != "error"@ ==> level_named(s) == LogLevel::Info,
{
    reveal_strlit("debug");
    reveal_strlit("info");
    reveal_strlit("warn");
    reveal_strlit("error");
    assert("info"@.len() != "debug"@.len());
    assert("warn"@[0] != "debug"@[0]);
    assert("warn"@[0] != "info"@[0]);
    assert("error"@[0] != "debug"@[0]);
    assert("error"@.len() != "info"@.len());
    assert("error"@.len() != "warn"@.len());
}

/// A server item that is read sets the log level that its `log_level`
/// string names (`debug`, `info`, `warn`, `error`; `Info` for any other
/// value), and keeps the level it had when it has no `log_level`.
pub proof fn server_log_level(sv: ServerView, item: Yaml)
    ensures
        server_item(sv, item) matches Ok(r) ==> match yaml_get(item, "log_level"@) {
            None => r.log_level == sv.log_level,
            Some(l) => {
                let name = str_or(Some(l), "info"@);
                &&& name == "debug"@ ==> r.log_level == LogLevel::Debug
                &&& name == "info"@ ==> r.log_level == LogLevel::Info
                &&& name == "warn"@ ==> r.log_level == LogLevel::Warn
                &&& name == "error"@ ==> r.log_level == LogLevel::Error
                &&& (name != "debug"@ && name != "warn"@ && name != "error"@)
                    ==> r.log_level == LogLevel::Info
            },
        },
{
    if let Some(l) = yaml_get(item, "log_level"@) {
        log_level_names(str_or(Some(l), "info"@));
    }
}

} // verus!
