use hype::cookie::{Cookie, Flag};

#[test]
fn cookie_test_it_works() {
    let mut cookie = Cookie::new("ID", "mo");
    cookie.push_flag(Flag::Domain("mo.town".into()));
    cookie.push_flag(Flag::Secure);
    assert_eq!(cookie.name(), &"ID".to_string());
    assert_eq!(cookie.value(), &"mo".to_string());

    assert!(cookie.has_flag(&Flag::Secure));
    assert!(!cookie.has_flag(&Flag::Partitioned));
    assert!(cookie.has_flag(&Flag::Domain("mo.town".into())));
    assert!(!cookie.has_flag(&Flag::Domain("motown".into())));
}

#[test]
fn try_from() {
    let cookie = Cookie::try_from("boo");
    assert!(cookie.is_err());

    let cookie = Cookie::try_from("Set-Cookie: ID=mo; Secure; Partitioned");
    assert!(cookie.is_ok());
    assert!(cookie.unwrap().has_flag(&Flag::Secure));
}

#[test]
fn cookie_serialize_with_flags() {
    let mut cookie = Cookie::new("ID", "mo");
    cookie.push_flag(Flag::Secure);
    cookie.push_flag(Flag::Domain("mo.town".into()));
    assert_eq!(cookie.serialize(), "Set-Cookie: ID=mo; Secure; Domain=mo.town");
}

#[test]
fn cookie_parse_then_serialize() {
    let cookie = Cookie::try_from("Set-Cookie: ID=mo; Secure; Partitioned").unwrap();
    assert_eq!(cookie.name(), "ID");
    assert_eq!(cookie.value(), "mo");
    assert_eq!(cookie.serialize(), "Set-Cookie: ID=mo; Secure; Partitioned");
}

#[test]
fn cookie_expiry_written_as_rfc2822() {
    let mut cookie = Cookie::new("a", "b");
    cookie.push_flag(Flag::Expires(1445412480));
    assert_eq!(cookie.serialize(), "Set-Cookie: a=b; Expires=Wed, 21 Oct 2015 07:28:00 +0000");
}

#[test]
fn cookie_line_with_time_has_too_many_colons() {
    let cookie = Cookie::try_from("Set-Cookie: a=b; Expires=Wed, 21 Oct 2015 07:28:00 GMT");
    assert!(cookie.is_err());
}

#[test]
fn cookie_bad_expiry() {
    assert!(Cookie::try_from("Set-Cookie: a=b; Expires=soon").is_err());
}

#[test]
fn cookie_line_reads_back() {
    let mut cookie = Cookie::new("ID", "mo");
    cookie.push_flag(Flag::Domain("mo.town".into()));
    cookie.push_flag(Flag::MaxAge(3600));
    cookie.push_flag(Flag::HttpOnly);
    cookie.push_flag(Flag::SameSiteLax);
    let line = cookie.serialize();
    let back = Cookie::try_from(line.as_str()).unwrap();
    assert_eq!(back.name(), "ID");
    assert_eq!(back.value(), "mo");
    assert_eq!(back.get_flags(), cookie.get_flags());
}

#[test]
fn cookie_line_reads_back_with_unicode_domain() {
    let mut cookie = Cookie::new("SID", "x1");
    cookie.push_flag(Flag::Domain("bücher.example".into()));
    cookie.push_flag(Flag::Secure);
    let back = Cookie::try_from(cookie.serialize().as_str()).unwrap();
    assert_eq!(back.name(), "SID");
    assert_eq!(back.value(), "x1");
    assert_eq!(back.get_flags(), cookie.get_flags());
}
