//! Cookies: parsing `Set-Cookie` header lines and serializing cookies.
use vstd::prelude::*;

use crate::text::{
    ascii_lower_char, chars_of, decimal, is_ascii_text, is_digit, is_trimmed, is_ws,
    lemma_decimal, lemma_parse_decimal, lemma_split_join, lemma_split_none, lemma_trim_after_ws,
    lemma_trim_trimmed, lowercase, push_number, push_str, split, split_chars, str_eq, to_lower,
    trim, trim_str, trimmed_pieces, trimmed_split, Text,
};

verus! {

/// The instant, in seconds since the Unix epoch, that
/// `DateTime::parse_from_rfc2822` reads from a date.
pub uninterp spec fn rfc2822_timestamp(s: Seq<char>) -> Option<i64>;

/// The RFC 2822 text that `DateTime::to_rfc2822` writes for an instant.
pub uninterp spec fn rfc2822_text(secs: i64) -> Seq<char>;

/// The instants whose year lies between 0 and 9999, the ones that
/// `to_rfc2822` can write (it panics on the others).
pub open spec fn rfc2822_writable(secs: i64) -> bool {
    -62167219200 <= secs <= 253402300799
}

/// Wraps `DateTime::parse_from_rfc2822` followed by `timestamp()`: the
/// instant that an RFC 2822 date denotes, if it is one. The result depends on
/// `s` alone and is left as the name `rfc2822_timestamp`.
#[verifier::external_body]
fn parse_rfc2822(s: &str) -> (r: Option<i64>)
    ensures
        r == rfc2822_timestamp(s@),
{
    chrono::DateTime::parse_from_rfc2822(s).ok().map(|d| d.timestamp())
}

/// Wraps `DateTime::<Utc>::from_timestamp(secs, 0)` followed by
/// `to_rfc2822()`. `to_rfc2822` panics on years outside 0..=9999, which the
/// requirement excludes; within it `from_timestamp` always succeeds. The text
/// is left as the name `rfc2822_text`.
#[verifier::external_body]
fn write_rfc2822(secs: i64) -> (r: String)
    requires
        rfc2822_writable(secs),
    ensures
        r@ == rfc2822_text(secs),
{
    chrono::DateTime::<chrono::Utc>::from_timestamp(secs, 0).map(|d| d.to_rfc2822()).unwrap_or_default()
}

/// A cookie attribute. `Expires` holds its instant in seconds since the Unix
/// epoch.
#[derive(Debug, PartialEq, Eq, Hash, Clone)]
pub enum Flag {
    Domain(String),
    Expires(i64),
    MaxAge(u32),
    HttpOnly,
    Partitioned,
    Secure,
    SameSiteStrict,
    SameSiteLax,
    SameSiteNone,
}

pub enum FlagView {
    Domain(Seq<char>),
    Expires(i64),
    MaxAge(u32),
    HttpOnly,
    Partitioned,
    Secure,
    SameSiteStrict,
    SameSiteLax,
    SameSiteNone,
}

impl Flag {
    pub open spec fn view(&self) -> FlagView {
        match *self {
            Flag::Domain(d) => FlagView::Domain(d@),
            Flag::Expires(t) => FlagView::Expires(t),
            Flag::MaxAge(s) => FlagView::MaxAge(s),
            Flag::HttpOnly => FlagView::HttpOnly,
            Flag::Partitioned => FlagView::Partitioned,
            Flag::Secure => FlagView::Secure,
            Flag::SameSiteStrict => FlagView::SameSiteStrict,
            Flag::SameSiteLax => FlagView::SameSiteLax,
            Flag::SameSiteNone => FlagView::SameSiteNone,
        }
    }

    /// Whether two attributes are the same.
    pub fn same(&self, other: &Flag) -> (r: bool)
        ensures
            r == (self@ == other@),
    {
        match (self, other) {
            (Flag::Domain(a), Flag::Domain(b)) => *a == *b,
            (Flag::Expires(a), Flag::Expires(b)) => *a == *b,
            (Flag::MaxAge(a), Flag::MaxAge(b)) => *a == *b,
            (Flag::HttpOnly, Flag::HttpOnly) => true,
            (Flag::Partitioned, Flag::Partitioned) => true,
            (Flag::Secure, Flag::Secure) => true,
            (Flag::SameSiteStrict, Flag::SameSiteStrict) => true,
            (Flag::SameSiteLax, Flag::SameSiteLax) => true,
            (Flag::SameSiteNone, Flag::SameSiteNone) => true,
            _ => false,
        }
    }

    fn copy(&self) -> (r: Flag)
        ensures
            r@ == self@,
    {
        match self {
            Flag::Domain(d) => Flag::Domain(d.clone()),
            Flag::Expires(t) => Flag::Expires(*t),
            Flag::MaxAge(s) => Flag::MaxAge(*s),
            Flag::HttpOnly => Flag::HttpOnly,
            Flag::Partitioned => Flag::Partitioned,
            Flag::Secure => Flag::Secure,
            Flag::SameSiteStrict => Flag::SameSiteStrict,
            Flag::SameSiteLax => Flag::SameSiteLax,
            Flag::SameSiteNone => Flag::SameSiteNone,
        }
    }
}

/// How an attribute is written in a `Set-Cookie` line.
pub open spec fn flag_text(f: FlagView) -> Seq<char> {
    match f {
        FlagView::Domain(d) => "Domain="@ + d,
        FlagView::Expires(t) => "Expires="@ + rfc2822_text(t),
        FlagView::MaxAge(s) => "Max-Age="@ + crate::text::decimal(s as nat),
        FlagView::HttpOnly => "HttpOnly"@,
        FlagView::Partitioned => "Partitioned"@,
        FlagView::Secure => "Secure"@,
        FlagView::SameSiteStrict => "SameSite=Strict"@,
        FlagView::SameSiteLax => "SameSite=Lax"@,
        FlagView::SameSiteNone => "SameSite=None"@,
    }
}

/// Whether the attribute can be written (an expiry must be writable).
pub open spec fn flag_writable(f: FlagView) -> bool {
    match f {
        FlagView::Expires(t) => rfc2822_writable(t),
        _ => true,
    }
}

/// The attributes written one after the other, separated by `; `.
pub open spec fn flags_text(fs: Seq<FlagView>) -> Seq<char>
    decreases fs.len(),
{
    if fs.len() == 0 {
        Seq::<char>::empty()
    } else if fs.len() == 1 {
        flag_text(fs[0])
    } else {
        flags_text(fs.drop_last()) + "; "@ + flag_text(fs.last())
    }
}

/// Adds an attribute unless it is already present.
pub open spec fn flags_insert(fs: Seq<FlagView>, f: FlagView) -> Seq<FlagView> {
    if fs.contains(f) {
        fs
    } else {
        fs.push(f)
    }
}


/// The `Set-Cookie` header line of a cookie: the name, `=`, the value, then
/// each attribute after `; `.
pub open spec fn cookie_line(c: CookieView) -> Seq<char> {
    "Set-Cookie: "@ + c.name + "="@ + c.value + (if c.flags.len() > 0 {
        "; "@ + flags_text(c.flags)
    } else {
        Seq::<char>::empty()
    })
}

#[derive(Debug, Clone)]
pub enum CookieError {
    BadHeader,
    MissingCookieLine,
    MissingCookieFields,
    MalformedAttribute(String),
}

pub enum CookieErrorView {
    BadHeader,
    MissingCookieLine,
    MissingCookieFields,
    MalformedAttribute(Seq<char>),
}

impl CookieError {
    pub open spec fn view(&self) -> CookieErrorView {
        match *self {
            CookieError::BadHeader => CookieErrorView::BadHeader,
            CookieError::MissingCookieLine => CookieErrorView::MissingCookieLine,
            CookieError::MissingCookieFields => CookieErrorView::MissingCookieFields,
            CookieError::MalformedAttribute(s) => CookieErrorView::MalformedAttribute(s@),
        }
    }

    /// A description of the error.
    pub fn message(&self) -> (s: String)
        ensures
            s@ == "CookieError: "@ + match self@ {
                CookieErrorView::BadHeader => "could not parse header fields"@,
                CookieErrorView::MissingCookieLine => "no cookie in header line"@,
                CookieErrorView::MissingCookieFields => "malformed cookie line"@,
                CookieErrorView::MalformedAttribute(extra) => "malformed cookie attribute: "@
                    + extra,
            },
    {
        let mut s = String::new();
        push_str(&mut s, "CookieError: ");
        match self {
            CookieError::BadHeader => push_str(&mut s, "could not parse header fields"),
            CookieError::MissingCookieLine => push_str(&mut s, "no cookie in header line"),
            CookieError::MissingCookieFields => push_str(&mut s, "malformed cookie line"),
            CookieError::MalformedAttribute(extra) => {
                push_str(&mut s, "malformed cookie attribute: ");
                push_str(&mut s, extra.as_str());
            },
        }
        s
    }
}

pub struct CookieView {
    pub name: Seq<char>,
    pub value: Seq<char>,
    pub flags: Seq<FlagView>,
}

/// A cookie: a name, a value, and a set of attributes (kept in the order in
/// which they were first added).
#[derive(Debug)]
pub struct Cookie {
    name: String,
    value: String,
    flags: Vec<Flag>,
}

/// The attribute that a part of a cookie line (after the first) stands for.
pub open spec fn attribute(part: Seq<char>) -> Result<FlagView, CookieErrorView> {
    let l = lowercase(part);
    if l == "secure"@ {
        Ok(FlagView::Secure)
    } else if l == "httponly"@ {
        Ok(FlagView::HttpOnly)
    } else if l == "partitioned"@ {
        Ok(FlagView::Partitioned)
    } else if l == "samesite=strict"@ {
        Ok(FlagView::SameSiteStrict)
    } else if l == "samesite=lax"@ {
        Ok(FlagView::SameSiteLax)
    } else if l == "samesite=none"@ {
        Ok(FlagView::SameSiteNone)
    } else {
        let attrs = trimmed_split(part, '=');
        if attrs.len() != 2 {
            Err(CookieErrorView::MalformedAttribute(part))
        } else {
            let n = lowercase(attrs[0]);
            if n == "domain"@ {
                Ok(FlagView::Domain(attrs[1]))
            } else if n == "expires"@ {
                match rfc2822_timestamp(attrs[1]) {
                    Some(t) => Ok(FlagView::Expires(t)),
                    None => Err(CookieErrorView::MalformedAttribute("expiry"@)),
                }
            } else if n == "max-age"@ {
                Ok(
                    FlagView::MaxAge(
                        match crate::text::parse_bounded(attrs[1], 10, u32::MAX as nat) {
                            Some(v) => v as u32,
                            None => 0u32,
                        },
                    ),
                )
            } else {
                Err(CookieErrorView::MalformedAttribute(attrs[0]))
            }
        }
    }
}

/// The attributes of `parts[1..n]` added in order to `fs`, or the first error.
pub open spec fn attributes(fs: Seq<FlagView>, parts: Seq<Seq<char>>, n: int) -> Result<
    Seq<FlagView>,
    CookieErrorView,
>
    decreases n,
{
    if n <= 1 {
        Ok(fs)
    } else {
        match attributes(fs, parts, n - 1) {
            Ok(prev) => match attribute(parts[n - 1]) {
                Ok(f) => Ok(flags_insert(prev, f)),
                Err(e) => Err(e),
            },
            Err(e) => Err(e),
        }
    }
}

/// The cookie that a `Cookie:` or `Set-Cookie:` header line describes.
pub open spec fn parse_cookie(buf: Seq<char>) -> Result<CookieView, CookieErrorView> {
    let kv = split(buf, ':');
    if kv.len() != 2 {
        Err(CookieErrorView::BadHeader)
    } else {
        let parts = trimmed_split(trim(kv[1]), ';');
        if parts.len() == 0 {
            Err(CookieErrorView::MissingCookieLine)
        } else {
            let cookie_kv = trimmed_split(parts[0], '=');
            if cookie_kv.len() != 2 {
                Err(CookieErrorView::MissingCookieFields)
            } else {
                match attributes(Seq::<FlagView>::empty(), parts, parts.len() as int) {
                    Ok(fs) => Ok(CookieView { name: cookie_kv[0], value: cookie_kv[1], flags: fs }),
                    Err(e) => Err(e),
                }
            }
        }
    }
}

fn attribute_of(part: &String) -> (r: Result<Flag, CookieError>)
    ensures
        r matches Ok(f) ==> attribute(part@) == Ok::<FlagView, CookieErrorView>(f@),
        r matches Err(e) ==> attribute(part@) == Err::<FlagView, CookieErrorView>(e@),
{
    let l = to_lower(part.as_str());
    if str_eq(l.as_str(), "secure") {
        return Ok(Flag::Secure);
    } else if str_eq(l.as_str(), "httponly") {
        return Ok(Flag::HttpOnly);
    } else if str_eq(l.as_str(), "partitioned") {
        return Ok(Flag::Partitioned);
    } else if str_eq(l.as_str(), "samesite=strict") {
        return Ok(Flag::SameSiteStrict);
    } else if str_eq(l.as_str(), "samesite=lax") {
        return Ok(Flag::SameSiteLax);
    } else if str_eq(l.as_str(), "samesite=none") {
        return Ok(Flag::SameSiteNone);
    }
    let pc = chars_of(part.as_str());
    let attrs = trimmed_pieces(pc.as_slice(), '=');
    if attrs.len() != 2 {
        return Err(CookieError::MalformedAttribute(part.clone()));
    }
    assert(attrs@.map_values(|x: String| x@)[0] == attrs@[0]@);
    assert(attrs@.map_values(|x: String| x@)[1] == attrs@[1]@);
    let n = to_lower(attrs[0].as_str());
    if str_eq(n.as_str(), "domain") {
        Ok(Flag::Domain(attrs[1].clone()))
    } else if str_eq(n.as_str(), "expires") {
        match parse_rfc2822(attrs[1].as_str()) {
            Some(t) => Ok(Flag::Expires(t)),
            None => Err(CookieError::MalformedAttribute("expiry".to_string())),
        }
    } else if str_eq(n.as_str(), "max-age") {
        let vc = chars_of(attrs[1].as_str());
        let v = match crate::text::parse_unsigned(vc.as_slice(), 10, u32::MAX as u64) {
            Some(x) => x as u32,
            None => 0u32,
        };
        Ok(Flag::MaxAge(v))
    } else {
        Err(CookieError::MalformedAttribute(attrs[0].clone()))
    }
}

impl Cookie {
    pub closed spec fn view(&self) -> CookieView {
        CookieView {
            name: self.name@,
            value: self.value@,
            flags: self.flags@.map_values(|f: Flag| f@),
        }
    }

    /// Whether every attribute of the cookie can be written.
    pub open spec fn writable(&self) -> bool {
        forall|i: int| 0 <= i < self@.flags.len() ==> flag_writable(#[trigger] self@.flags[i])
    }

    pub fn new<N: Text, V: Text>(name: N, value: V) -> (c: Cookie)
        ensures
            c@.name == name.text(),
            c@.value == value.text(),
            c@.flags == Seq::<FlagView>::empty(),
    {
        let c = Cookie { name: name.to_text(), value: value.to_text(), flags: Vec::new() };
        assert(c.flags@.map_values(|f: Flag| f@) =~= Seq::<FlagView>::empty());
        c
    }

    /// Parses a `Cookie:` or `Set-Cookie:` header line.
    #[verifier::loop_isolation(false)]
    pub fn try_from(buf: &str) -> (r: Result<Cookie, CookieError>)
        ensures
            r matches Ok(c) ==> parse_cookie(buf@) == Ok::<CookieView, CookieErrorView>(c@),
            r matches Err(e) ==> parse_cookie(buf@) == Err::<CookieView, CookieErrorView>(e@),
    {
        let bc = chars_of(buf);
        let kv = split_chars(bc.as_slice(), ':');
        if kv.len() != 2 {
            return Err(CookieError::BadHeader);
        }
        assert(kv@.map_values(|x: String| x@)[1] == kv@[1]@);
        let rest = trim_str(kv[1].as_str());
        let rc = chars_of(rest.as_str());
        let parts = trimmed_pieces(rc.as_slice(), ';');
        if parts.len() == 0 {
            return Err(CookieError::MissingCookieLine);
        }
        assert(parts@.map_values(|x: String| x@)[0] == parts@[0]@);
        let pc = chars_of(parts[0].as_str());
        let cookie_kv = trimmed_pieces(pc.as_slice(), '=');
        if cookie_kv.len() != 2 {
            return Err(CookieError::MissingCookieFields);
        }
        assert(cookie_kv@.map_values(|x: String| x@)[0] == cookie_kv@[0]@);
        assert(cookie_kv@.map_values(|x: String| x@)[1] == cookie_kv@[1]@);
        let mut cookie = Cookie::new(cookie_kv[0].clone(), cookie_kv[1].clone());
        let ghost pv = parts@.map_values(|x: String| x@);
        let mut i: usize = 1;
        while i < parts.len()
            invariant
                1 <= i <= parts.len(),
                pv == parts@.map_values(|x: String| x@),
                cookie@.name == cookie_kv@[0]@,
                cookie@.value == cookie_kv@[1]@,
                attributes(Seq::<FlagView>::empty(), pv, i as int) == Ok::<
                    Seq<FlagView>,
                    CookieErrorView,
                >(cookie@.flags),
            decreases parts.len() - i,
        {
            assert(pv[i as int] == parts@[i as int]@);
            match attribute_of(&parts[i]) {
                Ok(f) => {
                    cookie.push_flag(f);
                },
                Err(e) => {
                    proof {
                        lemma_attributes_err(pv, i as int + 1, parts.len() as int, e@);
                    }
                    return Err(e);
                },
            }
            i = i + 1;
        }
        Ok(cookie)
    }

    pub fn name(&self) -> (r: &String)
        ensures
            r@ == self@.name,
    {
        &self.name
    }

    pub fn value(&self) -> (r: &String)
        ensures
            r@ == self@.value,
    {
        &self.value
    }

    /// Adds an attribute unless it is already present.
    pub fn push_flag(&mut self, flag: Flag)
        ensures
            final(self)@ == (CookieView {
                name: old(self)@.name,
                value: old(self)@.value,
                flags: flags_insert(old(self)@.flags, flag@),
            }),
    {
        let ghost fs = self@.flags;
        if !self.has_flag(&flag) {
            self.flags.push(flag);
            assert(self.flags@.map_values(|f: Flag| f@) =~= fs.push(flag@));
        }
    }

    pub fn has_flag(&self, flag: &Flag) -> (r: bool)
        ensures
            r == self@.flags.contains(flag@),
    {
        let mut i: usize = 0;
        while i < self.flags.len()
            invariant
                i <= self.flags.len(),
                forall|j: int| 0 <= j < i ==> self@.flags[j] != flag@,
            decreases self.flags.len() - i,
        {
            if self.flags[i].same(flag) {
                assert(self@.flags[i as int] == flag@);
                return true;
            }
            i = i + 1;
        }
        false
    }

    /// The attributes in the order in which they were added.
    pub fn get_flags(&self) -> (r: &[Flag])
        ensures
            r@.map_values(|f: Flag| f@) == self@.flags,
    {
        self.flags.as_slice()
    }

    /// The `Set-Cookie` header line for the cookie.
    pub fn serialize(&self) -> (s: String)
        requires
            self.writable(),
        ensures
            s@ == cookie_line(self@),
    {
        let mut buf = String::new();
        push_str(&mut buf, "Set-Cookie: ");
        push_str(&mut buf, self.name.as_str());
        push_str(&mut buf, "=");
        push_str(&mut buf, self.value.as_str());
        let mut flagbuf = String::new();
        let mut i: usize = 0;
        while i < self.flags.len()
            invariant
                i <= self.flags.len(),
                self.writable(),
                flagbuf@ == flags_text(self@.flags.take(i as int)),
            decreases self.flags.len() - i,
        {
            if i > 0 {
                push_str(&mut flagbuf, "; ");
            }
            assert(self@.flags[i as int] == self.flags@[i as int]@);
            assert(flag_writable(self@.flags[i as int]));
            match &self.flags[i] {
                Flag::Domain(domain) => {
                    push_str(&mut flagbuf, "Domain=");
                    push_str(&mut flagbuf, domain.as_str());
                },
                Flag::Expires(t) => {
                    push_str(&mut flagbuf, "Expires=");
                    let w = write_rfc2822(*t);
                    push_str(&mut flagbuf, w.as_str());
                },
                Flag::MaxAge(seconds) => {
                    push_str(&mut flagbuf, "Max-Age=");
                    push_number(&mut flagbuf, *seconds as u64, 10);
                },
                Flag::HttpOnly => push_str(&mut flagbuf, "HttpOnly"),
                Flag::Partitioned => push_str(&mut flagbuf, "Partitioned"),
                Flag::Secure => push_str(&mut flagbuf, "Secure"),
                Flag::SameSiteStrict => push_str(&mut flagbuf, "SameSite=Strict"),
                Flag::SameSiteLax => push_str(&mut flagbuf, "SameSite=Lax"),
                Flag::SameSiteNone => push_str(&mut flagbuf, "SameSite=None"),
            }
            assert(self@.flags.take(i + 1).drop_last() =~= self@.flags.take(i as int));
            i = i + 1;
        }
        assert(self@.flags.take(self.flags.len() as int) =~= self@.flags);
        if self.flags.len() > 0 {
            push_str(&mut buf, "; ");
            push_str(&mut buf, flagbuf.as_str());
        }
        buf
    }
}

impl Clone for Cookie {
    fn clone(&self) -> (r: Self)
        ensures
            r@ == self@,
    {
        let mut flags: Vec<Flag> = Vec::new();
        let mut i: usize = 0;
        while i < self.flags.len()
            invariant
                i <= self.flags.len(),
                flags@.map_values(|f: Flag| f@) == self@.flags.take(i as int),
            decreases self.flags.len() - i,
        {
            let f = self.flags[i].copy();
            let ghost before = flags@.map_values(|f: Flag| f@);
            flags.push(f);
            assert(flags@.map_values(|f: Flag| f@) =~= before.push(f@));
            i = i + 1;
            assert(flags@.map_values(|f: Flag| f@) =~= self@.flags.take(i as int));
        }
        assert(self@.flags.take(self.flags.len() as int) =~= self@.flags);
        Cookie { name: self.name.clone(), value: self.value.clone(), flags }
    }
}

proof fn lemma_attributes_err(parts: Seq<Seq<char>>, k: int, n: int, e: CookieErrorView)
    requires
        1 <= k <= n,
        attributes(Seq::<FlagView>::empty(), parts, k) == Err::<Seq<FlagView>, CookieErrorView>(e),
    ensures
        attributes(Seq::<FlagView>::empty(), parts, n) == Err::<Seq<FlagView>, CookieErrorView>(e),
    decreases n - k,
{
    if k < n {
        lemma_attributes_err(parts, k, n - 1, e);
    }
}


/// A cookie name, value or domain that a cookie line carries unchanged: not
/// empty, no whitespace at either end, and none of `:`, `;`, `=`.
pub open spec fn plain_token(s: Seq<char>) -> bool {
    &&& s.len() > 0
    &&& is_trimmed(s)
    &&& !s.contains(':')
    &&& !s.contains(';')
    &&& !s.contains('=')
}

/// An attribute that its written form reads back as: not an expiry (whose
/// date holds `:`), and a domain that is a plain token.
pub open spec fn flag_round_trips(f: FlagView) -> bool {
    match f {
        FlagView::Expires(_) => false,
        FlagView::Domain(d) => plain_token(d),
        _ => true,
    }
}

proof fn lemma_no_char_concat(a: Seq<char>, b: Seq<char>, ch: char)
    requires
        !a.contains(ch),
        !b.contains(ch),
    ensures
        !(a + b).contains(ch),
{
    if (a + b).contains(ch) {
        let i = choose|i: int| 0 <= i < (a + b).len() && (a + b)[i] == ch;
        if i < a.len() {
            assert(a[i] == ch);
        } else {
            assert(b[i - a.len()] == ch);
        }
    }
}

proof fn lemma_digits_plain(d: Seq<char>)
    requires
        d.len() > 0,
        forall|i: int| 0 <= i < d.len() ==> is_digit(#[trigger] d[i]),
    ensures
        plain_token(d),
        is_ascii_text(d),
{
    assert(!is_ws(d[0]) && is_digit(d[0]));
    assert(is_digit(d[d.len() - 1]));
    assert(!d.contains(':')) by {
        if d.contains(':') {
            let i = choose|i: int| 0 <= i < d.len() && d[i] == ':';
            assert(is_digit(d[i]));
        }
    }
    assert(!d.contains(';')) by {
        if d.contains(';') {
            let i = choose|i: int| 0 <= i < d.len() && d[i] == ';';
            assert(is_digit(d[i]));
        }
    }
    assert(!d.contains('=')) by {
        if d.contains('=') {
            let i = choose|i: int| 0 <= i < d.len() && d[i] == '=';
            assert(is_digit(d[i]));
        }
    }
}

/// The lower-case form of a text that begins with an ASCII character begins
/// with the lower-case form of that character.
proof fn lemma_lower_first(s: Seq<char>)
    requires
        s.len() > 0,
        (s[0] as u32) <= 127,
    ensures
        lowercase(s).len() > 0,
        lowercase(s)[0] == ascii_lower_char(s[0]),
{
    crate::text::lemma_ascii_prefix_len(s);
}

/// How a name=value attribute splits at its `=`.
proof fn lemma_attr_split(key: Seq<char>, v: Seq<char>)
    requires
        plain_token(key),
        plain_token(v),
    ensures
        trimmed_split(key + "="@ + v, '=') == seq![key, v],
{
    reveal_strlit("=");
    assert(key + "="@ + v =~= key + seq!['='] + v);
    lemma_split_join(key, v, '=');
    lemma_split_none(key, '=');
    lemma_split_none(v, '=');
    lemma_trim_trimmed(key);
    lemma_trim_trimmed(v);
    assert(split(key + "="@ + v, '=') =~= seq![key, v]);
    assert(seq![key, v].map_values(|p: Seq<char>| trim(p)) =~= seq![key, v]);
}


proof fn lemma_domain_text(d: Seq<char>)
    requires
        plain_token(d),
    ensures
        reads_back(FlagView::Domain(d)),
{
    reveal_strlit("secure");
    reveal_strlit("httponly");
    reveal_strlit("partitioned");
    reveal_strlit("samesite=strict");
    reveal_strlit("samesite=lax");
    reveal_strlit("samesite=none");
    let f = FlagView::Domain(d);
    let t = flag_text(f);
    reveal_strlit("Domain=");
    reveal_strlit("Domain");
    reveal_strlit("domain");
    reveal_strlit("=");
    assert(t =~= "Domain"@ + "="@ + d);
    assert(t[0] == 'D');
    lemma_lower_first(t);
    assert(lowercase(t)[0] == 'd');
    assert(plain_token("Domain"@)) by {
        assert(!"Domain"@.contains(':'));
        assert(!"Domain"@.contains(';'));
        assert(!"Domain"@.contains('='));
    }
    lemma_attr_split("Domain"@, d);
    assert(is_ascii_text("Domain"@));
    assert(lowercase("Domain"@) =~= "domain"@);
    assert(!t.contains(':')) by {
        lemma_no_char_concat("Domain"@ + "="@, d, ':');
    }
    assert(!t.contains(';')) by {
        lemma_no_char_concat("Domain"@ + "="@, d, ';');
    }
    assert(t[0] == 'D');
    assert(t.last() == d.last());
    let l = lowercase(t);
    assert(l != "secure"@);
    assert(l != "httponly"@);
    assert(l != "partitioned"@);
    assert(l != "samesite=strict"@);
    assert(l != "samesite=lax"@);
    assert(l != "samesite=none"@);
    let attrs = trimmed_split(t, '=');
    assert(attrs.len() == 2);
    assert(lowercase(attrs[0]) == "domain"@);
    assert(attrs[1] == d);
    assert(attribute(t) == Ok::<FlagView, CookieErrorView>(FlagView::Domain(attrs[1])));
}

/// What a written attribute must be to read back: a plain piece of a cookie
/// line whose attribute is `f`.
pub open spec fn reads_back(f: FlagView) -> bool {
    let t = flag_text(f);
    &&& t.len() > 0
    &&& is_trimmed(t)
    &&& !t.contains(':')
    &&& !t.contains(';')
    &&& attribute(t) == Ok::<FlagView, CookieErrorView>(f)
}

proof fn lemma_max_age_text(n: u32)
    ensures
        reads_back(FlagView::MaxAge(n)),
{
    reveal_strlit("secure");
    reveal_strlit("httponly");
    reveal_strlit("partitioned");
    reveal_strlit("samesite=strict");
    reveal_strlit("samesite=lax");
    reveal_strlit("samesite=none");
    reveal_strlit("Max-Age=");
    reveal_strlit("Max-Age");
    reveal_strlit("max-age");
    reveal_strlit("domain");
    reveal_strlit("expires");
    reveal_strlit("=");
    let t = flag_text(FlagView::MaxAge(n));
    let d = decimal(n as nat);
    lemma_decimal(n as nat);
    lemma_digits_plain(d);
    lemma_parse_decimal(n as nat, u32::MAX as nat);
    assert(t =~= "Max-Age"@ + "="@ + d);
    assert(is_ascii_text(t));
    lemma_lower_first(t);
    assert(lowercase(t)[0] == 'm');
    assert(plain_token("Max-Age"@)) by {
        assert(!"Max-Age"@.contains(':'));
        assert(!"Max-Age"@.contains(';'));
        assert(!"Max-Age"@.contains('='));
    }
    lemma_attr_split("Max-Age"@, d);
    assert(is_ascii_text("Max-Age"@));
    assert(lowercase("Max-Age"@) =~= "max-age"@);
    assert(!t.contains(':')) by {
        lemma_no_char_concat("Max-Age"@ + "="@, d, ':');
    }
    assert(!t.contains(';')) by {
        lemma_no_char_concat("Max-Age"@ + "="@, d, ';');
    }
    assert(t[0] == 'M');
    assert(t.last() == d.last());
    let l = lowercase(t);
    assert(l != "secure"@);
    assert(l != "httponly"@);
    assert(l != "partitioned"@);
    assert(l != "samesite=strict"@);
    assert(l != "samesite=lax"@);
    assert(l != "samesite=none"@);
    let attrs = trimmed_split(t, '=');
    assert(attrs.len() == 2);
    assert(attrs[1] == d);
    let k = lowercase(attrs[0]);
    assert(k == "max-age"@);
    assert(k != "domain"@);
    assert("max-age"@[0] != "expires"@[0]);
    assert(k != "expires"@);
    assert(crate::text::parse_bounded(attrs[1], 10, u32::MAX as nat) == Some(n as nat));
    assert(attribute(t) == Ok::<FlagView, CookieErrorView>(FlagView::MaxAge(n)));
}

proof fn lemma_word_flags()
    ensures
        reads_back(FlagView::HttpOnly),
        reads_back(FlagView::Partitioned),
        reads_back(FlagView::Secure),
{
    reveal_strlit("secure");
    reveal_strlit("httponly");
    reveal_strlit("partitioned");
    reveal_strlit("HttpOnly");
    reveal_strlit("Partitioned");
    reveal_strlit("Secure");
    assert(is_ascii_text("HttpOnly"@));
    assert(lowercase("HttpOnly"@) =~= "httponly"@);
    assert(is_ascii_text("Partitioned"@));
    assert(lowercase("Partitioned"@) =~= "partitioned"@);
    assert(is_ascii_text("Secure"@));
    assert(lowercase("Secure"@) =~= "secure"@);
}

proof fn lemma_same_site_flags()
    ensures
        reads_back(FlagView::SameSiteStrict),
        reads_back(FlagView::SameSiteLax),
        reads_back(FlagView::SameSiteNone),
{
    reveal_strlit("secure");
    reveal_strlit("httponly");
    reveal_strlit("partitioned");
    reveal_strlit("samesite=strict");
    reveal_strlit("samesite=lax");
    reveal_strlit("samesite=none");
    reveal_strlit("SameSite=Strict");
    reveal_strlit("SameSite=Lax");
    reveal_strlit("SameSite=None");
    assert(is_ascii_text("SameSite=Strict"@));
    assert(lowercase("SameSite=Strict"@) =~= "samesite=strict"@);
    assert(is_ascii_text("SameSite=Lax"@));
    assert(lowercase("SameSite=Lax"@) =~= "samesite=lax"@);
    assert(is_ascii_text("SameSite=None"@));
    assert(lowercase("SameSite=None"@) =~= "samesite=none"@);
}

/// The written form of an attribute that round-trips reads back as it.
proof fn lemma_flag_text(f: FlagView)
    requires
        flag_round_trips(f),
    ensures
        reads_back(f),
{
    match f {
        FlagView::Domain(d) => lemma_domain_text(d),
        FlagView::MaxAge(n) => lemma_max_age_text(n),
        FlagView::Expires(_) => {},
        _ => {
            lemma_word_flags();
            lemma_same_site_flags();
        },
    }
}


/// `name=value` followed by each attribute after `; `.
pub open spec fn cookie_pairs(nv: Seq<char>, fs: Seq<FlagView>) -> Seq<char>
    decreases fs.len(),
{
    if fs.len() == 0 {
        nv
    } else {
        cookie_pairs(nv, fs.drop_last()) + "; "@ + flag_text(fs.last())
    }
}

proof fn lemma_pairs_form(nv: Seq<char>, fs: Seq<FlagView>)
    ensures
        nv + (if fs.len() > 0 {
            "; "@ + flags_text(fs)
        } else {
            Seq::<char>::empty()
        }) == cookie_pairs(nv, fs),
    decreases fs.len(),
{
    if fs.len() == 0 {
        assert(nv + Seq::<char>::empty() =~= nv);
    } else if fs.len() == 1 {
        assert(fs.drop_last() =~= Seq::<FlagView>::empty());
        assert(fs.last() == fs[0]);
        assert(flags_text(fs) == flag_text(fs[0]));
        assert(cookie_pairs(nv, fs) == cookie_pairs(nv, fs.drop_last()) + "; "@ + flag_text(fs[0]));
        assert(nv + ("; "@ + flag_text(fs[0])) =~= nv + "; "@ + flag_text(fs[0]));
    } else {
        lemma_pairs_form(nv, fs.drop_last());
        let x = flags_text(fs.drop_last());
        let t = flag_text(fs.last());
        assert(flags_text(fs) == x + "; "@ + t);
        assert(nv + ("; "@ + x) == cookie_pairs(nv, fs.drop_last()));
        assert(cookie_pairs(nv, fs) == cookie_pairs(nv, fs.drop_last()) + "; "@ + t);
        assert(nv + ("; "@ + (x + "; "@ + t)) =~= (nv + ("; "@ + x)) + "; "@ + t);
    }
}

proof fn lemma_pairs_split(nv: Seq<char>, fs: Seq<FlagView>)
    requires
        !nv.contains(';'),
        forall|i: int| 0 <= i < fs.len() ==> reads_back(#[trigger] fs[i]),
    ensures
        split(cookie_pairs(nv, fs), ';') == seq![nv] + fs.map_values(
            |f: FlagView| seq![' '] + flag_text(f),
        ),
    decreases fs.len(),
{
    reveal_strlit("; ");
    if fs.len() == 0 {
        lemma_split_none(nv, ';');
        assert(seq![nv] + fs.map_values(|f: FlagView| seq![' '] + flag_text(f)) =~= seq![nv]);
    } else {
        let d = fs.drop_last();
        assert forall|i: int| 0 <= i < d.len() implies reads_back(#[trigger] d[i]) by {
            assert(d[i] == fs[i]);
        }
        lemma_pairs_split(nv, d);
        let f = fs.last();
        assert(reads_back(fs[fs.len() - 1]));
        let x = cookie_pairs(nv, d);
        let y = seq![' '] + flag_text(f);
        assert(cookie_pairs(nv, fs) =~= x + seq![';'] + y);
        lemma_split_join(x, y, ';');
        assert(!seq![' '].contains(';')) by {
            if seq![' '].contains(';') {
                assert(seq![' '][0] == ';');
            }
        }
        lemma_no_char_concat(seq![' '], flag_text(f), ';');
        lemma_split_none(y, ';');
        assert(seq![nv] + fs.map_values(|g: FlagView| seq![' '] + flag_text(g)) =~= (seq![nv]
            + d.map_values(|g: FlagView| seq![' '] + flag_text(g))) + seq![y]);
    }
}

proof fn lemma_pairs_plain(nv: Seq<char>, fs: Seq<FlagView>)
    requires
        nv.len() > 0,
        is_trimmed(nv),
        !nv.contains(':'),
        forall|i: int| 0 <= i < fs.len() ==> reads_back(#[trigger] fs[i]),
    ensures
        cookie_pairs(nv, fs).len() > 0,
        cookie_pairs(nv, fs)[0] == nv[0],
        is_trimmed(cookie_pairs(nv, fs)),
        !cookie_pairs(nv, fs).contains(':'),
    decreases fs.len(),
{
    reveal_strlit("; ");
    if fs.len() > 0 {
        let d = fs.drop_last();
        assert forall|i: int| 0 <= i < d.len() implies reads_back(#[trigger] d[i]) by {
            assert(d[i] == fs[i]);
        }
        lemma_pairs_plain(nv, d);
        let f = fs.last();
        assert(reads_back(fs[fs.len() - 1]));
        let x = cookie_pairs(nv, d);
        let t = flag_text(f);
        assert(cookie_pairs(nv, fs) =~= x + ("; "@ + t));
        assert(!"; "@.contains(':')) by {
            if "; "@.contains(':') {
                let i = choose|i: int| 0 <= i < "; "@.len() && "; "@[i] == ':';
                assert(i == 0 || i == 1);
            }
        }
        lemma_no_char_concat("; "@, t, ':');
        lemma_no_char_concat(x, "; "@ + t, ':');
        assert(cookie_pairs(nv, fs).last() == t.last());
    }
}

proof fn lemma_pairs_attributes(nv: Seq<char>, fs: Seq<FlagView>, k: int)
    requires
        0 <= k <= fs.len(),
        fs.no_duplicates(),
        forall|i: int| 0 <= i < fs.len() ==> reads_back(#[trigger] fs[i]),
    ensures
        attributes(
            Seq::<FlagView>::empty(),
            seq![nv] + fs.map_values(|f: FlagView| flag_text(f)),
            k + 1,
        ) == Ok::<Seq<FlagView>, CookieErrorView>(fs.take(k)),
    decreases k,
{
    let parts = seq![nv] + fs.map_values(|f: FlagView| flag_text(f));
    if k == 0 {
        assert(fs.take(0) =~= Seq::<FlagView>::empty());
    } else {
        lemma_pairs_attributes(nv, fs, k - 1);
        assert(parts[k] == flag_text(fs[k - 1]));
        assert(reads_back(fs[k - 1]));
        assert(!fs.take(k - 1).contains(fs[k - 1])) by {
            if fs.take(k - 1).contains(fs[k - 1]) {
                let j = choose|j: int| 0 <= j < k - 1 && #[trigger] fs.take(k - 1)[j] == fs[k - 1];
                assert(fs[j] == fs[k - 1]);
            }
        }
        assert(fs.take(k - 1).push(fs[k - 1]) =~= fs.take(k));
    }
}

/// A cookie reads back from the line it is written as: parsing the
/// `Set-Cookie` line of a cookie gives the cookie, when its name, value and
/// domain are plain tokens (no `:`, `;` or `=`, no whitespace at the ends),
/// it has no expiry (an RFC 2822 date holds `:`), and no
/// attribute occurs twice.
pub proof fn cookie_line_parses(c: CookieView)
    requires
        plain_token(c.name),
        plain_token(c.value),
        forall|i: int| 0 <= i < c.flags.len() ==> flag_round_trips(#[trigger] c.flags[i]),
        c.flags.no_duplicates(),
    ensures
        parse_cookie(cookie_line(c)) == Ok::<CookieView, CookieErrorView>(c),
{
    reveal_strlit("Set-Cookie: ");
    reveal_strlit("Set-Cookie");
    reveal_strlit("=");
    let fs = c.flags;
    assert forall|i: int| 0 <= i < fs.len() implies reads_back(#[trigger] fs[i]) by {
        lemma_flag_text(fs[i]);
    }
    let nv = c.name + "="@ + c.value;
    assert(nv =~= c.name + seq!['='] + c.value);
    assert(!seq!['='].contains(';') && !seq!['='].contains(':')) by {
        if seq!['='].contains(';') {
            assert(seq!['='][0] == ';');
        }
        if seq!['='].contains(':') {
            assert(seq!['='][0] == ':');
        }
    }
    lemma_no_char_concat(c.name, seq!['='], ';');
    lemma_no_char_concat(c.name + seq!['='], c.value, ';');
    lemma_no_char_concat(c.name, seq!['='], ':');
    lemma_no_char_concat(c.name + seq!['='], c.value, ':');
    assert(nv[0] == c.name[0]);
    assert(nv.last() == c.value.last());
    lemma_pairs_form(nv, fs);
    lemma_pairs_plain(nv, fs);
    lemma_pairs_split(nv, fs);
    let p = cookie_pairs(nv, fs);
    let line = cookie_line(c);
    assert(line =~= "Set-Cookie"@ + seq![':'] + (seq![' '] + p));
    // The header name and the rest.
    assert(!"Set-Cookie"@.contains(':')) by {
        if "Set-Cookie"@.contains(':') {
            let i = choose|i: int| 0 <= i < "Set-Cookie"@.len() && "Set-Cookie"@[i] == ':';
            assert(0 <= i < 10);
        }
    }
    assert(!seq![' '].contains(':')) by {
        if seq![' '].contains(':') {
            assert(seq![' '][0] == ':');
        }
    }
    lemma_no_char_concat(seq![' '], p, ':');
    lemma_split_join("Set-Cookie"@, seq![' '] + p, ':');
    lemma_split_none("Set-Cookie"@, ':');
    lemma_split_none(seq![' '] + p, ':');
    let kv = split(line, ':');
    assert(kv =~= seq!["Set-Cookie"@, seq![' '] + p]);
    lemma_trim_after_ws(' ', p);
    assert(trim(kv[1]) == p);
    // The pieces between semicolons.
    let parts = trimmed_split(p, ';');
    assert forall|i: int| 0 <= i < fs.len() implies trim(seq![' '] + flag_text(#[trigger] fs[i]))
        == flag_text(fs[i]) by {
        assert(reads_back(fs[i]));
        lemma_trim_after_ws(' ', flag_text(fs[i]));
    }
    lemma_trim_trimmed(nv);
    assert(parts =~= seq![nv] + fs.map_values(|f: FlagView| flag_text(f)));
    // The name and value.
    lemma_attr_split(c.name, c.value);
    assert(trimmed_split(parts[0], '=') == seq![c.name, c.value]);
    lemma_pairs_attributes(nv, fs, fs.len() as int);
    assert(fs.take(fs.len() as int) =~= fs);
    assert(parts.len() == fs.len() + 1);
}


/// Each attribute is written by its own name, and a part of a cookie line
/// is read as the attribute it names, in any case: `SameSite=Strict` is
/// `SameSiteStrict`, `SameSite=Lax` is `SameSiteLax`, `SameSite=None` is
/// `SameSiteNone`, `Secure`, `HttpOnly` and `Partitioned` are themselves;
/// `Domain=d` is the domain `d`, `Max-Age=n` the age `n` seconds, and
/// `Expires=t` the instant the date `t` denotes.
pub proof fn cookie_attribute_names(part: Seq<char>, d: Seq<char>, n: u32, t: i64)
    ensures
        flag_text(FlagView::SameSiteStrict) == "SameSite=Strict"@,
        flag_text(FlagView::SameSiteLax) == "SameSite=Lax"@,
        flag_text(FlagView::SameSiteNone) == "SameSite=None"@,
        flag_text(FlagView::Secure) == "Secure"@,
        flag_text(FlagView::HttpOnly) == "HttpOnly"@,
        flag_text(FlagView::Partitioned) == "Partitioned"@,
        flag_text(FlagView::Domain(d)) == "Domain="@ + d,
        flag_text(FlagView::MaxAge(n)) == "Max-Age="@ + decimal(n as nat),
        flag_text(FlagView::Expires(t)) == "Expires="@ + rfc2822_text(t),
        lowercase(part) == "secure"@ ==> attribute(part) == Ok::<FlagView, CookieErrorView>(FlagView::Secure),
        lowercase(part) == "httponly"@ ==> attribute(part) == Ok::<FlagView, CookieErrorView>(FlagView::HttpOnly),
        lowercase(part) == "partitioned"@ ==> attribute(part) == Ok::<FlagView, CookieErrorView>(FlagView::Partitioned),
        lowercase(part) == "samesite=strict"@ ==> attribute(part) == Ok::<FlagView, CookieErrorView>(FlagView::SameSiteStrict),
        lowercase(part) == "samesite=lax"@ ==> attribute(part) == Ok::<FlagView, CookieErrorView>(FlagView::SameSiteLax),
        lowercase(part) == "samesite=none"@ ==> attribute(part) == Ok::<FlagView, CookieErrorView>(FlagView::SameSiteNone),
        (lowercase(part) != "secure"@ && lowercase(part) != "httponly"@ && lowercase(part) != "partitioned"@ && lowercase(part) != "samesite=strict"@ && lowercase(part) != "samesite=lax"@ && lowercase(part) != "samesite=none"@ && trimmed_split(part, '=').len() == 2 && lowercase(
            trimmed_split(part, '=')[0],
        ) == "domain"@) ==> attribute(part) == Ok::<FlagView, CookieErrorView>(
            FlagView::Domain(trimmed_split(part, '=')[1]),
        ),
        (lowercase(part) != "secure"@ && lowercase(part) != "httponly"@ && lowercase(part) != "partitioned"@ && lowercase(part) != "samesite=strict"@ && lowercase(part) != "samesite=lax"@ && lowercase(part) != "samesite=none"@ && trimmed_split(part, '=').len() == 2 && lowercase(
            trimmed_split(part, '=')[0],
        ) == "expires"@) ==> attribute(part) == match rfc2822_timestamp(trimmed_split(part, '=')[1]) {
            Some(t) => Ok::<FlagView, CookieErrorView>(FlagView::Expires(t)),
            None => Err::<FlagView, CookieErrorView>(CookieErrorView::MalformedAttribute("expiry"@)),
        },
        (lowercase(part) != "secure"@ && lowercase(part) != "httponly"@ && lowercase(part) != "partitioned"@ && lowercase(part) != "samesite=strict"@ && lowercase(part) != "samesite=lax"@ && lowercase(part) != "samesite=none"@ && trimmed_split(part, '=').len() == 2 && lowercase(
            trimmed_split(part, '=')[0],
        ) == "max-age"@) ==> attribute(part) == Ok::<FlagView, CookieErrorView>(
            FlagView::MaxAge(
                match crate::text::parse_bounded(trimmed_split(part, '=')[1], 10, u32::MAX as nat) {
                    Some(v) => v as u32,
                    None => 0u32,
                },
            ),
        ),
{
    reveal_strlit("secure");
    reveal_strlit("httponly");
    reveal_strlit("partitioned");
    reveal_strlit("samesite=strict");
    reveal_strlit("samesite=lax");
    reveal_strlit("samesite=none");
    reveal_strlit("SameSite=Strict");
    reveal_strlit("SameSite=Lax");
    reveal_strlit("SameSite=None");
    reveal_strlit("Secure");
    reveal_strlit("HttpOnly");
    reveal_strlit("Partitioned");
    reveal_strlit("domain");
    reveal_strlit("expires");
    reveal_strlit("max-age");
    assert("secure"@.len() != "httponly"@.len());
    assert("secure"@.len() != "partitioned"@.len());
    assert("secure"@.len() != "samesite=strict"@.len());
    assert("secure"@.len() != "samesite=lax"@.len());
    assert("secure"@.len() != "samesite=none"@.len());
    assert("httponly"@.len() != "partitioned"@.len());
    assert("httponly"@.len() != "samesite=strict"@.len());
    assert("httponly"@.len() != "samesite=lax"@.len());
    assert("httponly"@.len() != "samesite=none"@.len());
    assert("partitioned"@.len() != "samesite=strict"@.len());
    assert("partitioned"@.len() != "samesite=lax"@.len());
    assert("partitioned"@.len() != "samesite=none"@.len());
    assert("samesite=strict"@.len() != "samesite=lax"@.len());
    assert("samesite=strict"@.len() != "samesite=none"@.len());
    assert("samesite=lax"@.len() != "samesite=none"@.len());
    assert("domain"@.len() != "expires"@.len());
    assert("domain"@.len() != "max-age"@.len());
    assert("expires"@[0] != "max-age"@[0]);
}

} // verus!
