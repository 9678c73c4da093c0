//! Route patterns and the table that picks the handler for a request path.
use vstd::prelude::*;

use crate::request::Method;
use crate::text::{chars_of, push_str, string_of_range};

verus! {

/// The pieces of a path that name something: not empty (repeated or
/// trailing separators) and not `.`.
pub open spec fn named_pieces(pieces: Seq<Seq<char>>) -> Seq<Seq<char>> {
    pieces.filter(|x: Seq<char>| x.len() > 0 && x != "."@)
}

/// The components into which `std::path::Path::components` breaks a path on
/// Unix, each written as its text: a leading root as `/`, then the pieces
/// between separators, where repeated separators, a trailing separator and
/// `.` are dropped, except a `.` that begins a relative path.
#[verifier::opaque]
pub open spec fn path_components(p: Seq<char>) -> Seq<Seq<char>> {
    let pieces = crate::text::split(p, '/');
    if p.len() > 0 && p[0] == '/' {
        seq!["/"@] + named_pieces(pieces)
    } else if pieces[0] == "."@ {
        seq!["."@] + named_pieces(pieces.drop_first())
    } else {
        named_pieces(pieces)
    }
}

/// Wraps `Path::components`. Each component is taken as text; the path is a
/// `&str`, so the text of every component is valid UTF-8 and comes back as
/// it is.
#[verifier::external_body]
fn components(p: &str) -> (r: Vec<String>)
    ensures
        r.deep_view() == path_components(p@),
{
    std::path::Path::new(p).components().map(|c| c.as_os_str().to_string_lossy().into_owned()).collect()
}

/// `PathBuf::push` of one component: a root component replaces the path;
/// any other is appended, with a separator unless the path is empty or
/// already ends with one.
pub open spec fn push_component(buf: Seq<char>, c: Seq<char>) -> Seq<char> {
    if c.len() > 0 && c[0] == '/' {
        c
    } else if buf.len() == 0 {
        c
    } else if buf.last() == '/' {
        buf + c
    } else {
        buf + "/"@ + c
    }
}

/// The path built by pushing the given components in order.
pub open spec fn join_components(cs: Seq<Seq<char>>) -> Seq<char>
    decreases cs.len(),
{
    if cs.len() == 0 {
        Seq::<char>::empty()
    } else {
        push_component(join_components(cs.drop_last()), cs.last())
    }
}

/// A pattern component that captures a parameter starts with `:`.
pub open spec fn is_param(patt: Seq<char>) -> bool {
    patt.len() > 0 && patt[0] == ':'
}

/// The text without its leading `:` characters.
pub open spec fn strip_colons(s: Seq<char>) -> Seq<char>
    decreases s.len(),
{
    if s.len() > 0 && s[0] == ':' {
        strip_colons(s.drop_first())
    } else {
        s
    }
}

/// Whether a pattern component accepts a path component.
pub open spec fn component_matches(patt: Seq<char>, path: Seq<char>) -> bool {
    is_param(patt) || patt == "*"@ || patt == path
}

/// Whether a pattern accepts a path (ignoring methods): each pattern
/// component accepts the path component at its place, and pattern components
/// beyond the end of the path are all `*`. Path components beyond the end of
/// the pattern are accepted.
pub open spec fn pattern_matches(patt: Seq<Seq<char>>, path: Seq<Seq<char>>) -> bool {
    forall|i: int|
        0 <= i < patt.len() ==> (if i < path.len() {
            component_matches(#[trigger] patt[i], path[i])
        } else {
            patt[i] == "*"@
        })
}

/// The number of components that a match covers.
pub open spec fn matched_len(patt: Seq<Seq<char>>, path: Seq<Seq<char>>) -> int {
    if patt.len() < path.len() {
        patt.len() as int
    } else {
        path.len() as int
    }
}

/// Parameters as name-value pairs; a later value for a name replaces the
/// earlier one in place.
pub type ParamsView = Seq<(Seq<char>, Seq<char>)>;

pub open spec fn param_index(ps: ParamsView, k: Seq<char>) -> Option<int>
    decreases ps.len(),
{
    if ps.len() == 0 {
        None
    } else if ps[0].0 == k {
        Some(0)
    } else {
        match param_index(ps.drop_first(), k) {
            Some(i) => Some(i + 1),
            None => None,
        }
    }
}

pub open spec fn param_insert(ps: ParamsView, k: Seq<char>, v: Seq<char>) -> ParamsView {
    match param_index(ps, k) {
        Some(i) => ps.update(i, (k, v)),
        None => ps.push((k, v)),
    }
}

/// The parameters captured by the first `n` components.
pub open spec fn params_of(patt: Seq<Seq<char>>, path: Seq<Seq<char>>, n: int) -> ParamsView
    decreases n,
{
    if n <= 0 {
        Seq::<(Seq<char>, Seq<char>)>::empty()
    } else {
        let prev = params_of(patt, path, n - 1);
        if is_param(patt[n - 1]) {
            param_insert(prev, strip_colons(patt[n - 1]), path[n - 1])
        } else {
            prev
        }
    }
}

pub proof fn lemma_param_index(ps: ParamsView, k: Seq<char>)
    ensures
        param_index(ps, k) matches Some(i) ==> 0 <= i < ps.len() && ps[i].0 == k && forall|j: int|
            0 <= j < i ==> ps[j].0 != k,
        param_index(ps, k) is None ==> forall|j: int| 0 <= j < ps.len() ==> ps[j].0 != k,
    decreases ps.len(),
{
    if ps.len() > 0 {
        lemma_param_index(ps.drop_first(), k);
        if ps[0].0 != k {
            assert forall|j: int| 1 <= j < ps.len() implies ps[j] == ps.drop_first()[j - 1] by {}
            if let Some(i) = param_index(ps, k) {
                assert forall|j: int| 0 <= j < i implies ps[j].0 != k by {
                    if j > 0 {
                        assert(ps[j] == ps.drop_first()[j - 1]);
                    }
                }
            }
        }
    }
}

/// A stored parameter is read back: after a value is inserted under a name,
/// the name's first entry holds that value, and every other name keeps the
/// entry it had.
pub proof fn insert_then_get(ps: ParamsView, k: Seq<char>, v: Seq<char>, other: Seq<char>)
    ensures
        param_index(param_insert(ps, k, v), k) matches Some(i) && param_insert(ps, k, v)[i].1 == v,
        other != k ==> match param_index(ps, other) {
            Some(j) => param_index(param_insert(ps, k, v), other) == Some(j) && param_insert(
                ps,
                k,
                v,
            )[j] == ps[j],
            None => param_index(param_insert(ps, k, v), other) is None,
        },
{
    let q = param_insert(ps, k, v);
    lemma_param_index(ps, k);
    lemma_param_index(q, k);
    lemma_param_index(ps, other);
    lemma_param_index(q, other);
    match param_index(ps, k) {
        Some(i) => {
            assert(q[i] == (k, v));
            assert forall|j: int| 0 <= j < i implies q[j].0 != k by {
                assert(q[j] == ps[j]);
            }
            param_index_first(q, k, i);
        },
        None => {
            assert forall|j: int| 0 <= j < ps.len() implies q[j].0 != k by {
                assert(q[j] == ps[j]);
            }
            param_index_first(q, k, ps.len() as int);
        },
    }
    if other != k {
        assert forall|j: int| 0 <= j < q.len() && q[j].0 != k implies j < ps.len() && q[j] == ps[j] by {
            match param_index(ps, k) {
                Some(i) => {
                    assert(j != i);
                },
                None => {},
            }
        }
        match param_index(ps, other) {
            Some(j) => {
                assert(q[j] == ps[j]);
                assert forall|x: int| 0 <= x < j implies q[x].0 != other by {
                    if q[x].0 == other {
                        assert(q[x] == ps[x]);
                    }
                }
                param_index_first(q, other, j);
            },
            None => {
                if let Some(j) = param_index(q, other) {
                    assert(q[j] == ps[j]);
                }
            },
        }
    }
}

/// The parameters that a route captured.
#[derive(Debug, PartialEq, Eq)]
pub struct Params {
    pairs: Vec<(String, String)>,
}

impl Params {
    pub closed spec fn view(&self) -> ParamsView {
        self.pairs.deep_view()
    }

    pub fn new() -> (p: Params)
        ensures
            p@ == Seq::<(Seq<char>, Seq<char>)>::empty(),
    {
        let p = Params { pairs: Vec::new() };
        assert(p.pairs.deep_view() =~= Seq::<(Seq<char>, Seq<char>)>::empty());
        p
    }

    fn position(&self, k: &String) -> (r: Option<usize>)
        ensures
            r matches Some(i) ==> param_index(self@, k@) == Some(i as int),
            r is None ==> param_index(self@, k@) is None,
    {
        let mut i: usize = 0;
        while i < self.pairs.len()
            invariant
                i <= self.pairs.len(),
                forall|j: int| 0 <= j < i ==> self@[j].0 != k@,
            decreases self.pairs.len() - i,
        {
            if self.pairs[i].0 == *k {
                proof {
                    assert(self@[i as int].0 == self.pairs@[i as int].0@);
                    param_index_first(self@, k@, i as int);
                }
                return Some(i);
            }
            assert(self@[i as int].0 == self.pairs@[i as int].0@);
            i = i + 1;
        }
        proof {
            lemma_param_index(self@, k@);
            if let Some(j) = param_index(self@, k@) {
                assert(self@[j].0 == k@);
            }
        }
        None
    }

    /// Stores a value under a name, replacing an earlier value.
    pub fn insert(&mut self, k: String, v: String)
        ensures
            final(self)@ == param_insert(old(self)@, k@, v@),
    {
        let ghost before = self@;
        match self.position(&k) {
            Some(i) => {
                proof {
                    lemma_param_index(before, k@);
                }
                self.pairs.set(i, (k, v));
            },
            None => {
                self.pairs.push((k, v));
            },
        }
        assert(self@ =~= param_insert(before, k@, v@));
    }

    /// The value captured under a name.
    pub fn get(&self, k: &str) -> (r: Option<&String>)
        ensures
            r matches Some(v) ==> param_index(self@, k@) matches Some(i) && self@[i].1 == v@,
            r is None ==> param_index(self@, k@) is None,
    {
        let key = k.to_string();
        match self.position(&key) {
            Some(i) => {
                proof {
                    lemma_param_index(self@, k@);
                }
                assert(self@[i as int].1 == self.pairs@[i as int].1@);
                Some(&self.pairs[i].1)
            },
            None => None,
        }
    }

    /// The number of captured parameters.
    pub fn len(&self) -> (n: usize)
        ensures
            n == self@.len(),
    {
        self.pairs.len()
    }

    /// A copy with the same pairs.
    pub fn copy(&self) -> (r: Params)
        ensures
            r@ == self@,
    {
        let mut out: Vec<(String, String)> = Vec::new();
        let mut i: usize = 0;
        while i < self.pairs.len()
            invariant
                i <= self.pairs.len(),
                out.deep_view() == self.pairs.deep_view().take(i as int),
            decreases self.pairs.len() - i,
        {
            let a = self.pairs[i].0.clone();
            let b = self.pairs[i].1.clone();
            let ghost before = out.deep_view();
            out.push((a, b));
            assert(self.pairs.deep_view()[i as int] == (self.pairs@[i as int].0@, self.pairs@[i as int].1@));
            assert(out.deep_view() =~= before.push((a@, b@)));
            i = i + 1;
            assert(out.deep_view() =~= self.pairs.deep_view().take(i as int));
        }
        assert(self.pairs.deep_view().take(i as int) =~= self.pairs.deep_view());
        Params { pairs: out }
    }

    /// The name-value pairs in order.
    pub fn pairs(&self) -> (r: &[(String, String)])
        ensures
            r.deep_view() == self@,
    {
        self.pairs.as_slice()
    }
}

impl Clone for Params {
    fn clone(&self) -> (r: Self)
        ensures
            r@ == self@,
    {
        self.copy()
    }
}

proof fn param_index_first(ps: ParamsView, k: Seq<char>, i: int)
    requires
        0 <= i < ps.len(),
        ps[i].0 == k,
        forall|j: int| 0 <= j < i ==> ps[j].0 != k,
    ensures
        param_index(ps, k) == Some(i),
    decreases i,
{
    if i > 0 {
        assert forall|j: int| 0 <= j < i - 1 implies ps.drop_first()[j].0 != k by {
            assert(ps.drop_first()[j] == ps[j + 1]);
        }
        param_index_first(ps.drop_first(), k, i - 1);
    }
}

/// Matches request paths against a routing pattern such as `/files/:name/*`.
#[derive(Debug)]
pub struct Matcher {
    pub pattern: String,
    pub methods: Vec<Method>,
}

/// Whether a method is acceptable to a matcher.
pub open spec fn method_allowed(methods: Seq<Method>, method: Option<Method>) -> bool {
    methods.len() == 0 || (method matches Some(m) && methods.contains(m))
}

pub(crate) fn push_path_component(buf: &mut String, c: &String)
    ensures
        final(buf)@ == push_component(old(buf)@, c@),
{
    let cs = chars_of(c.as_str());
    if cs.len() > 0 && cs[0] == '/' {
        *buf = c.clone();
    } else {
        let bs = chars_of(buf.as_str());
        if bs.len() == 0 {
            *buf = c.clone();
        } else if bs[bs.len() - 1] == '/' {
            push_str(buf, c.as_str());
        } else {
            push_str(buf, "/");
            push_str(buf, c.as_str());
        }
    }
}

fn strip_leading_colons(s: &String) -> (r: String)
    ensures
        r@ == strip_colons(s@),
{
    let cs = chars_of(s.as_str());
    let mut i: usize = 0;
    assert(cs@.subrange(0, cs@.len() as int) =~= cs@);
    while i < cs.len() && cs[i] == ':'
        invariant
            i <= cs.len(),
            cs@ == s@,
            strip_colons(s@) == strip_colons(cs@.subrange(i as int, cs@.len() as int)),
        decreases cs.len() - i,
    {
        let ghost rest = cs@.subrange(i as int, cs@.len() as int);
        assert(rest[0] == cs@[i as int]);
        assert(rest.drop_first() =~= cs@.subrange(i + 1, cs@.len() as int));
        i = i + 1;
    }
    proof {
        let rest = cs@.subrange(i as int, cs@.len() as int);
        if rest.len() > 0 {
            assert(rest[0] == cs@[i as int]);
        }
    }
    string_of_range(cs.as_slice(), i, cs.len())
}

fn is_star(s: &String) -> (r: bool)
    ensures
        r == (s@ == "*"@),
{
    crate::text::str_eq(s.as_str(), "*")
}

impl Matcher {
    pub fn new<T: crate::text::Text>(pattern: T) -> (m: Matcher)
        ensures
            m.pattern@ == pattern.text(),
            m.methods@.len() == 0,
    {
        Matcher { pattern: pattern.to_text(), methods: Vec::new() }
    }

    /// Match only requests with this method (or another pushed one).
    pub fn push_method(&mut self, method: Method)
        ensures
            final(self).pattern@ == old(self).pattern@,
            final(self).methods@ == old(self).methods@.push(method),
    {
        self.methods.push(method)
    }

    /// Match only requests with one of these methods.
    pub fn push_methods(&mut self, methods: Vec<Method>)
        ensures
            final(self).pattern@ == old(self).pattern@,
            final(self).methods@ == old(self).methods@ + methods@,
    {
        let mut ms = methods;
        self.methods.append(&mut ms);
    }

    /// The priority of the matcher: its number of components, plus one if it
    /// is restricted to some methods.
    pub open spec fn spec_len(&self) -> nat {
        let n = path_components(self.pattern@).len() + if self.methods@.len() == 0 {
            0nat
        } else {
            1nat
        };
        if n > usize::MAX {
            usize::MAX as nat
        } else {
            n
        }
    }

    pub fn len(&self) -> (n: usize)
        ensures
            n == self.spec_len(),
    {
        let c = components(self.pattern.as_str()).len();
        let extra: usize = if self.methods.len() == 0 {
            0
        } else {
            1
        };
        c.saturating_add(extra)
    }

    /// The path that a route matches and the parameters it captures.
    pub open spec fn spec_extract(&self, route: Seq<char>, method: Option<Method>) -> Option<
        (Seq<char>, ParamsView),
    > {
        let patt = path_components(self.pattern@);
        let path = path_components(route);
        if pattern_matches(patt, path) && method_allowed(self.methods@, method) {
            Some(
                (
                    join_components(path.take(matched_len(patt, path))),
                    params_of(patt, path, matched_len(patt, path)),
                ),
            )
        } else {
            None
        }
    }

    fn match_components(&self, path: &Vec<String>) -> (r: Option<(String, Params)>)
        ensures
            ({
                let patt = path_components(self.pattern@);
                let pv = path.deep_view();
                if pattern_matches(patt, pv) {
                    r matches Some(p) && p.0@ == join_components(pv.take(matched_len(patt, pv)))
                        && p.1@ == params_of(patt, pv, matched_len(patt, pv))
                } else {
                    r is None
                }
            }),
    {
        let patt = components(self.pattern.as_str());
        let ghost pv = path.deep_view();
        let ghost tv = patt.deep_view();
        let mut params = Params::new();
        let mut matched = String::new();
        let mut i: usize = 0;
        let n = if patt.len() < path.len() {
            patt.len()
        } else {
            path.len()
        };
        while i < n
            invariant
                i <= n,
                n == matched_len(tv, pv),
                tv == path_components(self.pattern@),
                pv == path.deep_view(),
                tv == patt.deep_view(),
                forall|j: int| 0 <= j < i ==> component_matches(#[trigger] tv[j], pv[j]),
                matched@ == join_components(pv.take(i as int)),
                params@ == params_of(tv, pv, i as int),
            decreases n - i,
        {
            let t = &patt[i];
            let p = &path[i];
            assert(tv[i as int] == t@);
            assert(pv[i as int] == p@);
            let tc = chars_of(t.as_str());
            if tc.len() > 0 && tc[0] == ':' {
                let name = strip_leading_colons(t);
                params.insert(name, p.clone());
            } else if is_star(t) {
            } else if *t == *p {
            } else {
                assert(!component_matches(tv[i as int], pv[i as int]));
                return None;
            }
            push_path_component(&mut matched, p);
            assert(pv.take(i + 1).drop_last() =~= pv.take(i as int));
            i = i + 1;
        }
        let mut j: usize = n;
        while j < patt.len()
            invariant
                n <= j <= patt.len(),
                n == matched_len(tv, pv),
                tv == path_components(self.pattern@),
                tv == patt.deep_view(),
                pv == path.deep_view(),
                forall|k: int| 0 <= k < n ==> component_matches(#[trigger] tv[k], pv[k]),
                forall|k: int| n <= k < j ==> #[trigger] tv[k] == "*"@,
            decreases patt.len() - j,
        {
            assert(tv[j as int] == patt@[j as int]@);
            if !is_star(&patt[j]) {
                assert(j >= pv.len());
                assert(!(tv[j as int] == "*"@));
                assert(!pattern_matches(tv, pv));
                return None;
            }
            j = j + 1;
        }
        assert(pattern_matches(tv, pv));
        Some((matched, params))
    }

    /// Matches a route: returns the matched path, with which a handler can
    /// tell the part of the route below it, and the captured parameters.
    /// A matcher restricted to methods needs to be given a method when the
    /// route matches its pattern.
    #[verifier::loop_isolation(false)]
    pub fn extract_params<T: crate::text::Text>(&self, route: T, method: Option<Method>) -> (r:
        Option<(String, Params)>)
        requires
            self.methods@.len() == 0 || method is Some || !pattern_matches(
                path_components(self.pattern@),
                path_components(route.text()),
            ),
        ensures
            r matches Some(p) ==> self.spec_extract(route.text(), method) == Some((p.0@, p.1@)),
            r is None ==> self.spec_extract(route.text(), method) is None,
    {
        let path = components(route.to_text().as_str());
        let result = self.match_components(&path);
        match result {
            Some(p) => {
                if self.methods.len() == 0 {
                    Some(p)
                } else {
                    let m = match method {
                        Some(m) => m,
                        None => {
                            return None;
                        },
                    };
                    let mut k: usize = 0;
                    while k < self.methods.len()
                        invariant
                            k <= self.methods.len(),
                            forall|x: int| 0 <= x < k ==> self.methods@[x] != m,
                        decreases self.methods.len() - k,
                    {
                        if self.methods[k] == m {
                            assert(self.methods@[k as int] == m);
                            assert(self.methods@.contains(m));
                            assert(method_allowed(self.methods@, method));
                            return Some(p);
                        }
                        k = k + 1;
                    }
                    None
                }
            },
            None => None,
        }
    }

    /// The path that a route matches, whatever its method.
    pub fn matches<T: crate::text::Text>(&self, route: T) -> (r: Option<String>)
        ensures
            ({
                let patt = path_components(self.pattern@);
                let path = path_components(route.text());
                if pattern_matches(patt, path) {
                    r matches Some(m) && m@ == join_components(path.take(matched_len(patt, path)))
                } else {
                    r is None
                }
            }),
    {
        let path = components(route.to_text().as_str());
        match self.match_components(&path) {
            Some(p) => Some(p.0),
            None => None,
        }
    }
}

/// Routes sorted by the priority of their matchers, so that the longest
/// matching route is found last.
pub struct Router<H> {
    routes: Vec<(Matcher, H)>,
    default_handler: H,
}

/// Whether the priorities never decrease along the table.
pub open spec fn sorted_by_priority(ls: Seq<nat>) -> bool {
    forall|i: int, j: int| 0 <= i <= j < ls.len() ==> ls[i] <= ls[j]
}

/// The place where a route of priority `p` is inserted: after every route of
/// equal or lower priority.
pub open spec fn insert_position(ls: Seq<nat>, p: nat) -> int
    decreases ls.len(),
{
    if ls.len() == 0 {
        0
    } else if ls.last() <= p {
        ls.len() as int
    } else {
        insert_position(ls.drop_last(), p)
    }
}

proof fn lemma_insert_position(ls: Seq<nat>, p: nat)
    requires
        sorted_by_priority(ls),
    ensures
        0 <= insert_position(ls, p) <= ls.len(),
        forall|i: int| 0 <= i < insert_position(ls, p) ==> ls[i] <= p,
        forall|i: int| insert_position(ls, p) <= i < ls.len() ==> ls[i] > p,
        sorted_by_priority(ls.insert(insert_position(ls, p), p)),
    decreases ls.len(),
{
    if ls.len() > 0 {
        if ls.last() > p {
            let d = ls.drop_last();
            assert forall|i: int, j: int| 0 <= i <= j < d.len() implies d[i] <= d[j] by {
                assert(d[i] == ls[i] && d[j] == ls[j]);
            }
            lemma_insert_position(d, p);
            assert forall|i: int| 0 <= i < insert_position(ls, p) implies ls[i] <= p by {
                assert(d[i] == ls[i]);
            }
            assert forall|i: int| insert_position(ls, p) <= i < ls.len() implies ls[i] > p by {
                if i < d.len() {
                    assert(d[i] == ls[i]);
                }
            }
        } else {
            assert forall|i: int| 0 <= i < ls.len() implies ls[i] <= p by {
                assert(ls[i] <= ls[ls.len() - 1]);
            }
        }
    }
    let k = insert_position(ls, p);
    let n = ls.insert(k, p);
    assert forall|x: int| 0 <= x < n.len() implies n[x] == (if x < k {
        ls[x]
    } else if x == k {
        p
    } else {
        ls[x - 1]
    }) by {}
    assert forall|i: int, j: int| 0 <= i <= j < n.len() implies n[i] <= n[j] by {
        if i < k && j > k {
            assert(ls[i] <= p);
            assert(ls[j - 1] > p);
        } else if i < k && j == k {
            assert(ls[i] <= p);
        } else if i == k && j > k {
            assert(ls[j - 1] > p);
        } else if i > k {
            assert(ls[i - 1] <= ls[j - 1]);
        } else if j < k {
            assert(ls[i] <= ls[j]);
        }
    }
}

impl<H> Router<H> {
    /// The priorities of the routes in table order.
    pub closed spec fn priorities(&self) -> Seq<nat> {
        self.routes@.map_values(|r: (Matcher, H)| r.0.spec_len())
    }

    /// The patterns of the routes in table order.
    pub closed spec fn patterns(&self) -> Seq<Seq<char>> {
        self.routes@.map_values(|r: (Matcher, H)| r.0.pattern@)
    }

    /// The matchers in table order.
    pub closed spec fn matchers(&self) -> Seq<Matcher> {
        self.routes@.map_values(|r: (Matcher, H)| r.0)
    }

    /// The handlers in table order.
    pub closed spec fn handlers(&self) -> Seq<H> {
        self.routes@.map_values(|r: (Matcher, H)| r.1)
    }

    /// The handler used when no route matches.
    pub closed spec fn fallback(&self) -> H {
        self.default_handler
    }

    pub fn default_handler(&self) -> (h: &H)
        ensures
            *h == self.fallback(),
    {
        &self.default_handler
    }

    #[verifier::type_invariant]
    spec fn sorted(&self) -> bool {
        sorted_by_priority(self.priorities())
    }

    pub fn new(default_handler: H) -> (r: Router<H>)
        ensures
            r.priorities().len() == 0,
            r.fallback() == default_handler,
    {
        Router { routes: Vec::new(), default_handler }
    }

    /// The number of routes.
    pub fn len(&self) -> (n: usize)
        ensures
            n == self.priorities().len(),
    {
        self.routes.len()
    }

    /// Adds a route after every route whose matcher has an equal or lower
    /// priority.
    pub fn add_route(&mut self, matcher: Matcher, handler: H)
        ensures
            final(self).priorities() == old(self).priorities().insert(
                insert_position(old(self).priorities(), matcher.spec_len()),
                matcher.spec_len(),
            ),
            final(self).matchers() == old(self).matchers().insert(
                insert_position(old(self).priorities(), matcher.spec_len()),
                matcher,
            ),
            final(self).handlers() == old(self).handlers().insert(
                insert_position(old(self).priorities(), matcher.spec_len()),
                handler,
            ),
            final(self).fallback() == old(self).fallback(),
    {
        proof {
            use_type_invariant(&*self);
            lemma_insert_position(self.priorities(), matcher.spec_len());
        }
        let ghost ls = self.priorities();
        let ghost ms = self.matchers();
        let ghost hs = self.handlers();
        let p = matcher.len();
        let mut k: usize = self.routes.len();
        assert(ls.take(ls.len() as int) =~= ls);
        while k > 0 && self.routes[k - 1].0.len() > p
            invariant
                k <= self.routes@.len(),
                ls == self.priorities(),
                ls.len() == self.routes@.len(),
                forall|i: int| k <= i < ls.len() ==> ls[i] > p,
                insert_position(ls, p as nat) == insert_position(ls.take(k as int), p as nat),
            decreases k,
        {
            assert(ls[k - 1] == self.routes@[k - 1].0.spec_len());
            assert(ls.take(k as int).last() == ls[k - 1]);
            assert(ls.take(k as int).drop_last() =~= ls.take(k - 1));
            k = k - 1;
        }
        proof {
            if k > 0 {
                assert(ls[k - 1] == self.routes@[k - 1].0.spec_len());
                assert(ls.take(k as int).last() == ls[k - 1]);
            }
            assert(ls.take(k as int).len() == k);
        }
        assert(insert_position(ls, p as nat) == k);
        let mut routes: Vec<(Matcher, H)> = Vec::new();
        std::mem::swap(&mut routes, &mut self.routes);
        routes.insert(k, (matcher, handler));
        assert(routes@.map_values(|r: (Matcher, H)| r.0.spec_len()) =~= ls.insert(k as int, p as nat));
        assert(routes@.map_values(|r: (Matcher, H)| r.0) =~= ms.insert(k as int, matcher));
        assert(routes@.map_values(|r: (Matcher, H)| r.1) =~= hs.insert(k as int, handler));
        self.routes = routes;
    }

    /// The route for a path and method: the last route in the table whose
    /// matcher accepts them (the one with the highest priority), with the
    /// matched path and parameters; the default handler if none does.
    pub fn route<T: crate::text::Text>(&self, path: T, method: Method) -> (r: (
        &H,
        Option<(String, Params)>,
    ))
        ensures
            ({
                let ms = self.matchers();
                match r.1 {
                    Some(p) => exists|i: int|
                        0 <= i < ms.len() && ms[i].spec_extract(path.text(), Some(method)) == Some(
                            (p.0@, p.1@),
                        ) && *r.0 == self.handlers()[i] && forall|j: int|
                            i < j < ms.len() ==> #[trigger] ms[j].spec_extract(
                                path.text(),
                                Some(method),
                            ) is None,
                    None => *r.0 == self.fallback() && forall|j: int|
                        0 <= j < ms.len() ==> #[trigger] ms[j].spec_extract(
                            path.text(),
                            Some(method),
                        ) is None,
                }
            }),
            // The route chosen has the highest priority of all routes that match.
            r.1 is Some ==> exists|i: int|
                0 <= i < self.matchers().len() && self.matchers()[i].spec_extract(
                    path.text(),
                    Some(method),
                ) is Some && *r.0 == self.handlers()[i] && forall|j: int|
                    0 <= j < self.matchers().len() && (#[trigger] self.matchers()[j].spec_extract(
                        path.text(),
                        Some(method),
                    )) is Some ==> self.priorities()[j] <= self.priorities()[i],
    {
        proof {
            use_type_invariant(self);
        }
        let p = path.to_text();
        let mut k: usize = self.routes.len();
        while k > 0
            invariant
                k <= self.routes@.len(),
                p@ == path.text(),
                sorted_by_priority(self.priorities()),
                forall|j: int|
                    k <= j < self.matchers().len() ==> #[trigger] self.matchers()[j].spec_extract(
                        path.text(),
                        Some(method),
                    ) is None,
            decreases k,
        {
            let (ref m, ref h) = self.routes[k - 1];
            assert(self.matchers()[k - 1] == *m);
            match m.extract_params(p.as_str(), Some(method)) {
                Some(found) => {
                    assert(self.handlers()[k - 1] == *h);
                    proof {
                        assert forall|j: int|
                            0 <= j < self.matchers().len() && (#[trigger] self.matchers()[j].spec_extract(
                                path.text(),
                                Some(method),
                            )) is Some implies self.priorities()[j] <= self.priorities()[k - 1] by {
                            assert(j <= k - 1);
                            assert(self.priorities().len() == self.matchers().len());
                        }
                    }
                    return (h, Some(found));
                },
                None => {},
            }
            k = k - 1;
        }
        (&self.default_handler, None)
    }
}

} // verus!
