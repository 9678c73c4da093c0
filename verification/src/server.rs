//! The decisions a server makes for each request on a connection: the
//! keep-alive settings a request asks for, and which handler serves it.
use vstd::prelude::*;

use crate::conntrack::ConnState;
use crate::headers::{lookup, EntriesView, Headers};
use crate::request::Request;
use crate::response::{response_text, Response};
use crate::router::{join_components, matched_len, path_components, pattern_matches, Matcher};
use crate::text::{
    chars_of, decimal, lowercase, parse_bounded, parse_unsigned, push_number, push_str, split,
    str_eq, to_lower, trimmed_pieces, trimmed_split, Text,
};

verus! {

/// The base URL of a server listening on an address and port.
pub fn base_url_for<T: Text>(address: T, port: u16) -> (s: String)
    ensures
        s@ == "http://"@ + address.text() + ":"@ + decimal(port as nat),
{
    let mut s = String::new();
    push_str(&mut s, "http://");
    let a = address.to_text();
    push_str(&mut s, a.as_str());
    push_str(&mut s, ":");
    push_number(&mut s, port as u64, 10);
    s
}

/// A keep-alive setting that a request asks for: a timeout in seconds, or
/// a maximum number of requests on the connection.
#[derive(Debug, Clone, Copy, PartialEq, Eq, Structural)]
pub enum ConnSetting {
    KeepAliveTimeout(u64),
    KeepAliveMax(usize),
}

/// What a request asks of its connection: to close it after this request,
/// and keep-alive settings to apply in order.
#[derive(Debug)]
pub struct ConnDirectives {
    pub close: bool,
    pub settings: Vec<ConnSetting>,
}

/// The first value of a header, as `Headers::get_first` finds it.
pub open spec fn header_first(h: EntriesView, key: Seq<char>) -> Option<Seq<char>> {
    match lookup(h, lowercase(key)) {
        Some(vs) => if vs.len() > 0 {
            Some(vs[0])
        } else {
            None
        },
        None => None,
    }
}

/// A number, or a default when the text is not one.
pub open spec fn number_or(s: Seq<char>, max: nat, d: nat) -> nat {
    match parse_bounded(s, 10, max) {
        Some(n) => n,
        None => d,
    }
}

/// The settings of the `name=value` parts of a `Keep-Alive` value, in order:
/// `timeout` (60 when not a number) and `max` (100 when not a number); other
/// names are ignored.
pub open spec fn keepalive_settings(parts: Seq<Seq<char>>) -> Seq<ConnSetting>
    decreases parts.len(),
{
    if parts.len() == 0 {
        Seq::empty()
    } else {
        let prev = keepalive_settings(parts.drop_last());
        let kv = trimmed_split(parts.last(), '=');
        if kv[0] == "timeout"@ {
            prev.push(ConnSetting::KeepAliveTimeout(number_or(kv[1], u64::MAX as nat, 60) as u64))
        } else if kv[0] == "max"@ {
            prev.push(ConnSetting::KeepAliveMax(number_or(kv[1], usize::MAX as nat, 100) as usize))
        } else {
            prev
        }
    }
}

/// Whether every `timeout` or `max` part of a `Keep-Alive` value has a value.
pub open spec fn keepalive_ok(value: Seq<char>) -> bool {
    forall|i: int|
        0 <= i < trimmed_split(value, ',').len() ==> ({
            let kv = trimmed_split(#[trigger] trimmed_split(value, ',')[i], '=');
            (kv[0] == "timeout"@ || kv[0] == "max"@) ==> kv.len() >= 2
        })
}

/// What the `Connection` header asks: `keep-alive` applies the settings of
/// the `Keep-Alive` header, `close` closes the connection after the request.
pub open spec fn directives_of(h: EntriesView) -> (bool, Seq<ConnSetting>) {
    match header_first(h, "connection"@) {
        Some(c) => if lowercase(c) == "keep-alive"@ {
            match header_first(h, "keep-alive"@) {
                Some(k) => (false, keepalive_settings(trimmed_split(k, ','))),
                None => (false, Seq::empty()),
            }
        } else if lowercase(c) == "close"@ {
            (true, Seq::empty())
        } else {
            (false, Seq::empty())
        },
        None => (false, Seq::empty()),
    }
}

/// Whether the request's headers can be read for keep-alive settings: a
/// `Keep-Alive` value that is read names every `timeout` and `max` with a
/// value.
pub open spec fn directives_readable(h: EntriesView) -> bool {
    match header_first(h, "connection"@) {
        Some(c) => lowercase(c) == "keep-alive"@ ==> match header_first(h, "keep-alive"@) {
            Some(k) => keepalive_ok(k),
            None => true,
        },
        None => true,
    }
}

proof fn lemma_split_nonempty(s: Seq<char>, sep: char)
    ensures
        split(s, sep).len() >= 1,
    decreases s.len(),
{
    if s.len() > 0 {
        lemma_split_nonempty(s.drop_last(), sep);
    }
}

fn settings_of(value: &str) -> (r: Vec<ConnSetting>)
    requires
        keepalive_ok(value@),
    ensures
        r@ == keepalive_settings(trimmed_split(value@, ',')),
{
    let vc = chars_of(value);
    let parts = trimmed_pieces(vc.as_slice(), ',');
    let ghost pv = parts@.map_values(|x: String| x@);
    let mut out: Vec<ConnSetting> = Vec::new();
    let mut i: usize = 0;
    assert(pv.take(0) =~= Seq::<Seq<char>>::empty());
    while i < parts.len()
        invariant
            i <= parts.len(),
            pv == parts@.map_values(|x: String| x@),
            pv == trimmed_split(value@, ','),
            keepalive_ok(value@),
            out@ == keepalive_settings(pv.take(i as int)),
        decreases parts.len() - i,
    {
        assert(pv[i as int] == parts@[i as int]@);
        assert(pv.take(i + 1).drop_last() =~= pv.take(i as int));
        let pc = chars_of(parts[i].as_str());
        let kv = trimmed_pieces(pc.as_slice(), '=');
        let ghost kvv = kv@.map_values(|x: String| x@);
        proof {
            lemma_split_nonempty(pv[i as int], '=');
            assert(kvv.len() == kv@.len());
            assert(kvv[0] == kv@[0]@);
        }
        if str_eq(kv[0].as_str(), "timeout") {
            assert(kvv[1] == kv@[1]@);
            let kc = chars_of(kv[1].as_str());
            let n = match parse_unsigned(kc.as_slice(), 10, u64::MAX) {
                Some(n) => n,
                None => 60,
            };
            out.push(ConnSetting::KeepAliveTimeout(n));
        } else if str_eq(kv[0].as_str(), "max") {
            assert(kvv[1] == kv@[1]@);
            let kc = chars_of(kv[1].as_str());
            let n = match parse_unsigned(kc.as_slice(), 10, usize::MAX as u64) {
                Some(n) => n as usize,
                None => 100,
            };
            out.push(ConnSetting::KeepAliveMax(n));
        }
        i = i + 1;
    }
    assert(pv.take(parts.len() as int) =~= pv);
    out
}

/// What a request's headers ask of the connection; the headers must be
/// readable for keep-alive settings.
pub fn connection_directives(h: &Headers) -> (d: ConnDirectives)
    requires
        directives_readable(h@),
    ensures
        (d.close, d.settings@) == directives_of(h@),
{
    match h.get_first("connection") {
        Some(c) => {
            let l = to_lower(c.as_str());
            if str_eq(l.as_str(), "keep-alive") {
                match h.get_first("keep-alive") {
                    Some(k) => ConnDirectives { close: false, settings: settings_of(k.as_str()) },
                    None => ConnDirectives { close: false, settings: Vec::new() },
                }
            } else if str_eq(l.as_str(), "close") {
                ConnDirectives { close: true, settings: Vec::new() }
            } else {
                ConnDirectives { close: false, settings: Vec::new() }
            }
        },
        None => ConnDirectives { close: false, settings: Vec::new() },
    }
}

/// `connection_directives` on any headers: `None` when they cannot be read
/// for keep-alive settings.
pub fn checked_connection_directives(h: &Headers) -> (d: Option<ConnDirectives>)
    ensures
        directives_readable(h@) ==> (d matches Some(x) && (x.close, x.settings@) == directives_of(h@)),
        !directives_readable(h@) ==> d is None,
{
    let readable = match h.get_first("connection") {
        Some(c) => {
            let l = to_lower(c.as_str());
            if str_eq(l.as_str(), "keep-alive") {
                match h.get_first("keep-alive") {
                    Some(k) => keepalive_value_ok(k.as_str()),
                    None => true,
                }
            } else {
                true
            }
        },
        None => true,
    };
    if readable {
        Some(connection_directives(h))
    } else {
        None
    }
}

fn keepalive_value_ok(value: &str) -> (r: bool)
    ensures
        r == keepalive_ok(value@),
{
    let vc = chars_of(value);
    let parts = trimmed_pieces(vc.as_slice(), ',');
    let ghost pv = parts@.map_values(|x: String| x@);
    let mut i: usize = 0;
    while i < parts.len()
        invariant
            i <= parts.len(),
            pv == parts@.map_values(|x: String| x@),
            pv == trimmed_split(value@, ','),
            forall|j: int|
                0 <= j < i ==> ({
                    let kv = trimmed_split(#[trigger] pv[j], '=');
                    (kv[0] == "timeout"@ || kv[0] == "max"@) ==> kv.len() >= 2
                }),
        decreases parts.len() - i,
    {
        assert(pv[i as int] == parts@[i as int]@);
        let pc = chars_of(parts[i].as_str());
        let kv = trimmed_pieces(pc.as_slice(), '=');
        let ghost kvv = kv@.map_values(|x: String| x@);
        proof {
            lemma_split_nonempty(pv[i as int], '=');
            assert(kvv.len() == kv@.len());
            assert(kvv[0] == kv@[0]@);
        }
        if (str_eq(kv[0].as_str(), "timeout") || str_eq(kv[0].as_str(), "max")) && kv.len() < 2 {
            return false;
        }
        i = i + 1;
    }
    true
}

/// Which handler serves a request: the first route whose pattern matches
/// the path (with the path it matched), else the default handler, else none.
#[derive(Debug)]
pub enum Dispatch {
    Route(usize, String),
    Default,
    NotFound,
}

/// The index of the first pattern that matches a path.
pub open spec fn first_match(patterns: Seq<Seq<char>>, path: Seq<char>) -> Option<int>
    decreases patterns.len(),
{
    if patterns.len() == 0 {
        None
    } else {
        match first_match(patterns.drop_last(), path) {
            Some(i) => Some(i),
            None => if pattern_matches(
                path_components(patterns.last()),
                path_components(path),
            ) {
                Some(patterns.len() - 1)
            } else {
                None
            },
        }
    }
}

/// Chooses the handler for a path among the routes in order.
pub fn dispatch(matchers: &[Matcher], has_default: bool, path: &str) -> (d: Dispatch)
    ensures
        ({
            let patterns = matchers@.map_values(|m: Matcher| m.pattern@);
            match first_match(patterns, path@) {
                Some(i) => d matches Dispatch::Route(j, m) && j == i && m@ == join_components(
                    path_components(path@).take(
                        matched_len(path_components(patterns[i]), path_components(path@)),
                    ),
                ),
                None => if has_default {
                    d is Default
                } else {
                    d is NotFound
                },
            }
        }),
{
    let ghost patterns = matchers@.map_values(|m: Matcher| m.pattern@);
    let mut i: usize = 0;
    assert(patterns.take(0) =~= Seq::<Seq<char>>::empty());
    while i < matchers.len()
        invariant
            i <= matchers.len(),
            patterns == matchers@.map_values(|m: Matcher| m.pattern@),
            first_match(patterns.take(i as int), path@) is None,
        decreases matchers.len() - i,
    {
        assert(patterns.take(i + 1).drop_last() =~= patterns.take(i as int));
        assert(patterns.take(i + 1).last() == matchers@[i as int].pattern@);
        match matchers[i].matches(path) {
            Some(m) => {
                proof {
                    lemma_first_match_prefix(patterns, path@, i as int + 1);
                }
                return Dispatch::Route(i, m);
            },
            None => {},
        }
        i = i + 1;
    }
    assert(patterns.take(matchers.len() as int) =~= patterns);
    if has_default {
        Dispatch::Default
    } else {
        Dispatch::NotFound
    }
}

proof fn lemma_first_match_prefix(ps: Seq<Seq<char>>, path: Seq<char>, i: int)
    requires
        0 <= i <= ps.len(),
        first_match(ps.take(i), path) is Some,
    ensures
        first_match(ps, path) == first_match(ps.take(i), path),
    decreases ps.len(),
{
    if i == ps.len() {
        assert(ps.take(i) =~= ps);
    } else {
        assert(ps.drop_last().take(i) =~= ps.take(i));
        lemma_first_match_prefix(ps.drop_last(), path, i);
    }
}

/// The path that routes are matched against: that of the request's URL, or
/// `/__bad_path__` when it has none.
pub fn request_path(req: &Request) -> (p: String)
    ensures
        req@.url matches Some(u) ==> p@ == u.path,
        req@.url is None ==> p@ == "/__bad_path__"@,
{
    match req.url() {
        Some(u) => u.path().to_string(),
        None => "/__bad_path__".to_string(),
    }
}

/// The answer when no route and no default handler serves a request.
pub fn no_route_response() -> (s: String)
    ensures
        s@ == response_text(
            (404u16, "Not Found"@),
            crate::headers::put(
                Seq::empty(),
                lowercase("Content-Type"@),
                seq![crate::text::trim("text/plain"@)],
            ),
            crate::parser::text_body("Hype: no route handlers installed."@),
        ),
{
    let mut response = Response::new(crate::status::from(crate::status::NOT_FOUND));
    response.headers.set("Content-Type", "text/plain");
    response.set_body("Hype: no route handlers installed.");
    assert(response@.headers =~= crate::headers::put(
        Seq::empty(),
        lowercase("Content-Type"@),
        seq![crate::text::trim("text/plain"@)],
    ));
    response.serialize()
}


/// The keep-alive timeout and maximum after settings are applied in order.
pub open spec fn after_settings(
    timeout: Option<u64>,
    max: Option<usize>,
    settings: Seq<ConnSetting>,
) -> (Option<u64>, Option<usize>)
    decreases settings.len(),
{
    if settings.len() == 0 {
        (timeout, max)
    } else {
        let prev = after_settings(timeout, max, settings.drop_last());
        match settings.last() {
            ConnSetting::KeepAliveTimeout(t) => (Some(t), prev.1),
            ConnSetting::KeepAliveMax(m) => (prev.0, Some(m)),
        }
    }
}

/// The keep-alive timeouts among settings, in order.
pub open spec fn timeouts_of(settings: Seq<ConnSetting>) -> Seq<u64>
    decreases settings.len(),
{
    if settings.len() == 0 {
        Seq::empty()
    } else {
        let prev = timeouts_of(settings.drop_last());
        match settings.last() {
            ConnSetting::KeepAliveTimeout(t) => prev.push(t),
            ConnSetting::KeepAliveMax(_) => prev,
        }
    }
}

/// What a connection does with a request it has read.
#[derive(Debug)]
pub enum ConnAction {
    /// The request is one more than the keep-alive maximum allows: the
    /// connection is shut down without serving it.
    Close,
    /// The request is served; the connection is closed after it when
    /// `close_after`, and each keep-alive timeout is handed on to the
    /// connection tracker, in order.
    Serve { close_after: bool, timeouts: Vec<u64> },
}

/// One step of a connection on a request with headers `h`, from state `a`
/// to state `b`, answering `r` (what `on_request` does): the request is
/// counted; past the keep-alive maximum the answer is `Close`; headers that
/// cannot be read give `None`; otherwise the request is served, its
/// keep-alive settings are applied in order, and it closes the connection
/// after it when its `Connection` header says `close`.
pub open spec fn request_step(a: ConnState, b: ConnState, h: EntriesView, r: Option<ConnAction>) -> bool {
    let over = match a.keepalive_max {
        Some(max) => b.request_count > max,
        None => false,
    };
    let (close, settings) = directives_of(h);
    &&& b.request_count == a.request_count + 1
    &&& if over {
        &&& r matches Some(ConnAction::Close)
        &&& b.keepalive_timeout == a.keepalive_timeout
        &&& b.keepalive_max == a.keepalive_max
    } else if !directives_readable(h) {
        &&& r is None
        &&& b.keepalive_timeout == a.keepalive_timeout
        &&& b.keepalive_max == a.keepalive_max
    } else {
        &&& r matches Some(ConnAction::Serve { close_after, timeouts })
        &&& close_after == close
        &&& timeouts@ == timeouts_of(settings)
        &&& (b.keepalive_timeout, b.keepalive_max) == after_settings(
            a.keepalive_timeout,
            a.keepalive_max,
            settings,
        )
    }
}

/// The keep-alive maximum after settings are applied in order.
pub open spec fn max_after(max: Option<usize>, settings: Seq<ConnSetting>) -> Option<usize>
    decreases settings.len(),
{
    if settings.len() == 0 {
        max
    } else {
        match settings.last() {
            ConnSetting::KeepAliveMax(m) => Some(m),
            ConnSetting::KeepAliveTimeout(_) => max_after(max, settings.drop_last()),
        }
    }
}

proof fn lemma_max_after(t: Option<u64>, m: Option<usize>, settings: Seq<ConnSetting>)
    ensures
        after_settings(t, m, settings).1 == max_after(m, settings),
    decreases settings.len(),
{
    if settings.len() > 0 {
        lemma_max_after(t, m, settings.drop_last());
    }
}

/// The keep-alive maximum that requests with the headers `hs`, served in
/// order on a fresh connection, leave in force: the last `max` they set.
pub open spec fn max_in_force(hs: Seq<EntriesView>) -> Option<usize>
    decreases hs.len(),
{
    if hs.len() == 0 {
        None
    } else {
        max_after(max_in_force(hs.drop_last()), directives_of(hs.last()).1)
    }
}

proof fn lemma_keep_alive_prefix(
    s: Seq<ConnState>,
    hs: Seq<EntriesView>,
    acts: Seq<Option<ConnAction>>,
    k: int,
)
    requires
        s.len() == hs.len() + 1,
        acts.len() == hs.len(),
        s[0].request_count == 0,
        s[0].keepalive_max is None,
        forall|i: int| 0 <= i < hs.len() ==> #[trigger] request_step(s[i], s[i + 1], hs[i], acts[i]),
        0 <= k <= hs.len(),
        forall|i: int| 0 <= i < k ==> (#[trigger] acts[i]) matches Some(ConnAction::Serve { .. }),
    ensures
        s[k].request_count == k,
        s[k].keepalive_max == max_in_force(hs.take(k)),
    decreases k,
{
    if k == 0 {
        assert(hs.take(0) =~= Seq::<EntriesView>::empty());
    } else {
        let i = k - 1;
        lemma_keep_alive_prefix(s, hs, acts, i);
        assert(request_step(s[i], s[i + 1], hs[i], acts[i]));
        assert(acts[i] matches Some(ConnAction::Serve { .. }));
        lemma_max_after(s[i].keepalive_timeout, s[i].keepalive_max, directives_of(hs[i]).1);
        assert(hs.take(k).drop_last() =~= hs.take(i));
        assert(hs.take(k).last() == hs[i]);
    }
}

/// Whether the connection served a request and stays open after it.
pub open spec fn served_open(a: Option<ConnAction>) -> bool {
    a matches Some(ConnAction::Serve { close_after, .. }) && !close_after
}

/// Keep-alive over a run of requests on a fresh connection: while the
/// connection is open (every earlier request was served and none asked to
/// close it), the `k`-th request (from 0) is counted as the `k + 1`-th, the
/// maximum in force is the last one an earlier request set, and the request
/// is refused and the connection closed exactly when it is past that
/// maximum; otherwise it is served and closes the connection after it
/// exactly when its `Connection` header says `close`.
pub proof fn keep_alive_run(
    s: Seq<ConnState>,
    hs: Seq<EntriesView>,
    acts: Seq<Option<ConnAction>>,
    k: int,
)
    requires
        s.len() == hs.len() + 1,
        acts.len() == hs.len(),
        s[0].request_count == 0,
        s[0].keepalive_max is None,
        forall|i: int| 0 <= i < hs.len() ==> #[trigger] request_step(s[i], s[i + 1], hs[i], acts[i]),
        forall|i: int| 0 <= i < hs.len() ==> directives_readable(#[trigger] hs[i]),
        0 <= k < hs.len(),
        forall|i: int| 0 <= i < k ==> served_open(#[trigger] acts[i]),
    ensures
        s[k].request_count == k,
        (acts[k] matches Some(ConnAction::Close)) <==> match max_in_force(hs.take(k)) {
            Some(m) => k + 1 > m,
            None => false,
        },
        !(acts[k] matches Some(ConnAction::Close)) ==> (acts[k] matches Some(
            ConnAction::Serve { close_after, .. },
        ) && close_after == directives_of(hs[k]).0),
{
    assert forall|i: int| 0 <= i < k implies (#[trigger] acts[i]) matches Some(
        ConnAction::Serve { .. },
    ) by {
        assert(served_open(acts[i]));
    }
    lemma_keep_alive_prefix(s, hs, acts, k);
    assert(request_step(s[k], s[k + 1], hs[k], acts[k]));
    assert(directives_readable(hs[k]));
}

/// The step of a connection on a request it has read: the request is
/// counted; past the keep-alive maximum the connection closes; otherwise the
/// request's `Connection` and `Keep-Alive` headers update the keep-alive
/// settings and say whether to close after serving it. `None` when those
/// headers cannot be read (a `timeout` or `max` without a value).
pub fn on_request(state: &mut ConnState, h: &Headers) -> (a: Option<ConnAction>)
    requires
        old(state).request_count < usize::MAX,
    ensures
        request_step(*old(state), *final(state), h@, a),
{
    if state.inc_request_count() {
        return Some(ConnAction::Close);
    }
    let d = match checked_connection_directives(h) {
        Some(d) => d,
        None => {
            return None;
        },
    };
    let ghost t0 = state.keepalive_timeout;
    let ghost m0 = state.keepalive_max;
    let mut timeouts: Vec<u64> = Vec::new();
    let mut i: usize = 0;
    while i < d.settings.len()
        invariant
            i <= d.settings.len(),
            (state.keepalive_timeout, state.keepalive_max) == after_settings(
                t0,
                m0,
                d.settings@.take(i as int),
            ),
            timeouts@ == timeouts_of(d.settings@.take(i as int)),
            state.request_count == old(state).request_count + 1,
        decreases d.settings.len() - i,
    {
        assert(d.settings@.take(i + 1).drop_last() =~= d.settings@.take(i as int));
        match d.settings[i] {
            ConnSetting::KeepAliveTimeout(t) => {
                state.set_keepalive_timeout(t);
                timeouts.push(t);
            },
            ConnSetting::KeepAliveMax(m) => {
                state.set_keepalive_max(m);
            },
        }
        i = i + 1;
    }
    assert(d.settings@.take(d.settings.len() as int) =~= d.settings@);
    Some(ConnAction::Serve { close_after: d.close, timeouts })
}


/// What a request's `Connection` header asks, in any case: `close` closes
/// the connection after the request; `keep-alive` applies the settings of
/// the `Keep-Alive` header, where `timeout=N` sets the timeout to `N`
/// seconds (60 when `N` is not a number) and `max=N` the maximum number of
/// requests (100 when `N` is not a number), in order; without a
/// `Connection` header nothing is asked.
pub proof fn connection_header_meaning(
    h: EntriesView,
    c: Seq<char>,
    k: Seq<char>,
    parts: Seq<Seq<char>>,
    part: Seq<char>,
)
    ensures
        header_first(h, "connection"@) == Some(c) && lowercase(c) == "close"@ ==> directives_of(h)
            == (true, Seq::<ConnSetting>::empty()),
        header_first(h, "connection"@) == Some(c) && lowercase(c) == "keep-alive"@ && header_first(
            h,
            "keep-alive"@,
        ) == Some(k) ==> directives_of(h) == (false, keepalive_settings(trimmed_split(k, ','))),
        header_first(h, "connection"@) is None ==> directives_of(h) == (
            false,
            Seq::<ConnSetting>::empty(),
        ),
        trimmed_split(part, '=')[0] == "timeout"@ ==> keepalive_settings(parts.push(part))
            == keepalive_settings(parts).push(
            ConnSetting::KeepAliveTimeout(
                number_or(trimmed_split(part, '=')[1], u64::MAX as nat, 60) as u64,
            ),
        ),
        trimmed_split(part, '=')[0] == "max"@ ==> keepalive_settings(parts.push(part))
            == keepalive_settings(parts).push(
            ConnSetting::KeepAliveMax(
                number_or(trimmed_split(part, '=')[1], usize::MAX as nat, 100) as usize,
            ),
        ),
{
    reveal_strlit("close");
    reveal_strlit("keep-alive");
    reveal_strlit("timeout");
    reveal_strlit("max");
    assert("close"@.len() != "keep-alive"@.len());
    assert("timeout"@.len() != "max"@.len());
    assert(parts.push(part).drop_last() =~= parts);
}

} // verus!
