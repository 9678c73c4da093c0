use hype::config::{Config, ConfigError, Handler, LogLevel, Yaml};

fn s(x: &str) -> Yaml {
    Yaml::Str(x.to_string())
}

fn map(entries: Vec<(&str, Yaml)>) -> Yaml {
    Yaml::Mapping(entries.into_iter().map(|(k, v)| (s(k), v)).collect())
}

#[test]
fn config_defaults_without_documents() {
    let c = Config::from_documents(&[]).unwrap();
    assert_eq!(c.server.listen_ip, "127.0.0.1");
    assert_eq!(c.server.port, 8000);
    assert_eq!(c.server.log_level, LogLevel::Info);
    assert!(c.routes.is_empty());
}

#[test]
fn config_reads_server_and_routes() {
    let doc = map(vec![
        (
            "server",
            Yaml::Sequence(vec![map(vec![
                ("listen_ip", s("0.0.0.0")),
                ("port", Yaml::Number(Some(65536 + 80))),
                ("log_level", s("debug")),
            ])]),
        ),
        (
            "routes",
            Yaml::Sequence(vec![
                map(vec![("location", s("/files")), ("handler", s("file"))]),
                map(vec![
                    ("location", s("/")),
                    ("handler", s("web")),
                    ("index", Yaml::Tagged(Box::new(s("home.html")))),
                    ("hosts", Yaml::Sequence(vec![s("a.com"), Yaml::Bool(true)])),
                    ("trailing_slashes", Yaml::Bool(false)),
                ]),
            ]),
        ),
    ]);
    let c = Config::from_documents(&[doc]).unwrap();
    assert_eq!(c.server.listen_ip, "0.0.0.0");
    assert_eq!(c.server.port, 80);
    assert_eq!(c.server.log_level, LogLevel::Debug);
    assert_eq!(c.routes.len(), 2);
    match &c.routes[0].handler {
        Handler::File(p) => {
            assert_eq!(p.fs_path, ".");
            assert!(p.trailing_slashes);
        }
        _ => panic!("expected a file handler"),
    }
    match &c.routes[1].handler {
        Handler::Web(p) => {
            assert_eq!(p.webroot, ".");
            assert_eq!(p.index, "home.html");
            assert_eq!(p.hosts, vec!["a.com".to_string(), "".to_string()]);
            assert!(!p.trailing_slashes);
        }
        _ => panic!("expected a web handler"),
    }
}

#[test]
fn config_missing_server() {
    let doc = map(vec![("routes", Yaml::Sequence(vec![]))]);
    assert_eq!(
        Config::from_documents(&[doc]).unwrap_err(),
        ConfigError::MissingField("server".to_string())
    );
}

#[test]
fn config_malformed_port() {
    let doc = map(vec![
        ("server", Yaml::Sequence(vec![map(vec![("listen_ip", s("x")), ("port", s("80"))])])),
        ("routes", Yaml::Sequence(vec![])),
    ]);
    assert_eq!(
        Config::from_documents(&[doc]).unwrap_err(),
        ConfigError::MalformedField("port".to_string())
    );
}

#[test]
fn config_unknown_handler() {
    let doc = map(vec![
        ("server", Yaml::Sequence(vec![])),
        (
            "routes",
            Yaml::Sequence(vec![map(vec![("location", s("/")), ("handler", s("cgi"))])]),
        ),
    ]);
    let e = Config::from_documents(&[doc]).unwrap_err();
    assert_eq!(e, ConfigError::MalformedField("route:handler: cgi".to_string()));
    assert_eq!(e.message(), "ConfigError: malformed field: route:handler: cgi");
}

#[test]
fn config_routes_accumulate_over_documents() {
    let doc = || {
        map(vec![
            ("server", Yaml::Sequence(vec![])),
            (
                "routes",
                Yaml::Sequence(vec![map(vec![("location", s("/a")), ("handler", s("file"))])]),
            ),
        ])
    };
    let c = Config::from_documents(&[doc(), doc()]).unwrap();
    assert_eq!(c.routes.len(), 2);
}

#[test]
fn yaml_lookups_look_through_tags() {
    let v = Yaml::Tagged(Box::new(map(vec![("k", Yaml::Number(Some(7)))])));
    assert_eq!(v.get("k").unwrap().as_u64(), Some(7));
    assert!(v.get("other").is_none());
    assert!(s("x").get("k").is_none());
    assert_eq!(Yaml::Number(None).as_u64(), None);
}

#[test]
fn config_from_yaml_text() {
    let text = "server:\n  - listen_ip: 0.0.0.0\n    port: 8080\n    log_level: warn\nroutes:\n  - location: /files\n    handler: file\n";
    let c = Config::from(text).unwrap().unwrap();
    assert_eq!(c.server.listen_ip, "0.0.0.0");
    assert_eq!(c.server.port, 8080);
    assert_eq!(c.server.log_level, LogLevel::Warn);
    assert_eq!(c.routes.len(), 1);
}

#[test]
fn config_from_yaml_text_errors() {
    match Config::from("routes: []\n").unwrap() {
        Err(ConfigError::MissingField(f)) => assert_eq!(f, "server"),
        _ => panic!("expected a missing server field"),
    }
    assert!(Config::from("server: [\n").is_none());
}
