//! A load balancer over HTTP backends: picks a backend for each request and
//! rewrites headers on the way.
use vstd::prelude::*;

use crate::client::ClientError;
use crate::headers::{lookup, put, put_then_lookup, EntriesView};
use crate::lb::picker::{Picker, PickerError};
use crate::request::{Request, RequestView};
use crate::router::param_insert;
use crate::text::{decimal, lowercase, push_number, push_str, trim, Text};

verus! {

/// The headers of a request after the rewrites, applied in order, each
/// setting the header to a single value.
pub open spec fn rewritten(h: EntriesView, rewrites: Seq<(Seq<char>, Seq<char>)>) -> EntriesView
    decreases rewrites.len(),
{
    if rewrites.len() == 0 {
        h
    } else {
        let prev = rewritten(h, rewrites.drop_last());
        put(prev, lowercase(rewrites.last().0), seq![trim(rewrites.last().1)])
    }
}

/// A load balancer: the backends, the policy that picks among them, and the
/// header rewrites (a later value for a name replaces the earlier one).
pub struct Http<T, P> {
    backends: Vec<T>,
    picker: P,
    headers: Vec<(String, String)>,
}

impl<T, P: Picker> Http<T, P> {
    pub closed spec fn backends(&self) -> Seq<T> {
        self.backends@
    }

    pub closed spec fn picker(&self) -> P {
        self.picker
    }

    pub closed spec fn rewrites(&self) -> Seq<(Seq<char>, Seq<char>)> {
        self.headers.deep_view()
    }

    pub fn new(backends: Vec<T>, picker: P) -> (h: Http<T, P>)
        ensures
            h.backends() == backends@,
            h.picker() == picker,
            h.rewrites() == Seq::<(Seq<char>, Seq<char>)>::empty(),
    {
        let h = Http { backends, picker, headers: Vec::new() };
        assert(h.headers.deep_view() =~= Seq::<(Seq<char>, Seq<char>)>::empty());
        h
    }

    /// Sets a header on every request sent through the balancer.
    pub fn rewrite_header<K: Text, V: Text>(&mut self, k: K, v: V)
        ensures
            final(self).rewrites() == param_insert(old(self).rewrites(), k.text(), v.text()),
            final(self).backends() == old(self).backends(),
            final(self).picker() == old(self).picker(),
    {
        let key = k.to_text();
        let value = v.to_text();
        let ghost before = self.headers.deep_view();
        let mut i: usize = 0;
        while i < self.headers.len()
            invariant
                i <= self.headers.len(),
                self.headers.deep_view() == before,
                before == old(self).rewrites(),
                self.backends@ == old(self).backends@,
                self.picker == old(self).picker,
                key@ == k.text(),
                value@ == v.text(),
                forall|j: int| 0 <= j < i ==> before[j].0 != key@,
            decreases self.headers.len() - i,
        {
            assert(before[i as int] == (self.headers@[i as int].0@, self.headers@[i as int].1@));
            if crate::text::str_eq(self.headers[i].0.as_str(), key.as_str()) {
                proof {
                    crate::router::lemma_param_index(before, key@);
                    lemma_first_index(before, key@, i as int);
                }
                self.headers.set(i, (key, value));
                assert(self.headers.deep_view() =~= param_insert(before, key@, value@));
                return;
            }
            i = i + 1;
        }
        proof {
            crate::router::lemma_param_index(before, key@);
            if let Some(j) = crate::router::param_index(before, key@) {
                assert(before[j].0 == key@);
            }
        }
        self.headers.push((key, value));
        assert(self.headers.deep_view() =~= param_insert(before, key@, value@));
    }

    /// The backends.
    pub fn get_backends(&self) -> (r: &Vec<T>)
        ensures
            r@ == self.backends(),
    {
        &self.backends
    }

    /// What the balancer makes of the picker's answer: the index and the
    /// request with its headers rewritten, or an internal error when the
    /// picker failed or answered past the number of backends.
    pub open spec fn forwards(
        &self,
        picked: Result<usize, PickerError>,
        req: RequestView,
        r: Result<(usize, Request), ClientError>,
    ) -> bool {
        match picked {
            Err(e) => r matches Err(ClientError::InternalError(m)) && m@ == "could not pick backend: "@
                + crate::lb::picker::picker_error_text(e),
            Ok(i) => if i > self.backends().len() {
                r matches Err(ClientError::InternalError(m)) && m@ == "picker returned invalid index: "@
                    + decimal(i as nat) + ", num backends: "@ + decimal(self.backends().len())
            } else {
                r matches Ok((j, q)) && j == i && q@ == (RequestView {
                    headers: rewritten(req.headers, self.rewrites()),
                    ..req
                })
            },
        }
    }

    /// The index and rewritten request for the picker's answer (see
    /// `forwards`).
    pub fn forward(&self, picked: Result<usize, PickerError>, req: &Request) -> (r: Result<
        (usize, Request),
        ClientError,
    >)
        ensures
            self.forwards(picked, req@, r),
    {
        match picked {
            Err(e) => {
                let mut m = String::new();
                push_str(&mut m, "could not pick backend: ");
                let t = e.message();
                push_str(&mut m, t.as_str());
                Err(ClientError::InternalError(m))
            },
            Ok(i) => {
                if i > self.backends.len() {
                    let mut m = String::new();
                    push_str(&mut m, "picker returned invalid index: ");
                    push_number(&mut m, i as u64, 10);
                    push_str(&mut m, ", num backends: ");
                    push_number(&mut m, self.backends.len() as u64, 10);
                    return Err(ClientError::InternalError(m));
                }
                let mut q = req.clone();
                let mut k: usize = 0;
                let ghost rs = self.rewrites();
                assert(rs.take(0) =~= Seq::<(Seq<char>, Seq<char>)>::empty());
                while k < self.headers.len()
                    invariant
                        k <= self.headers.len(),
                        rs == self.headers.deep_view(),
                        q@ == (RequestView { headers: rewritten(req@.headers, rs.take(k as int)), ..req@ }),
                    decreases self.headers.len() - k,
                {
                    assert(rs.take(k + 1).drop_last() =~= rs.take(k as int));
                    assert(rs[k as int] == (self.headers@[k as int].0@, self.headers@[k as int].1@));
                    q.set_header(self.headers[k].0.as_str(), self.headers[k].1.as_str());
                    k = k + 1;
                }
                assert(rs.take(self.headers.len() as int) =~= rs);
                Ok((i, q))
            },
        }
    }

    /// Asks the picker for a backend among all of them, once, and answers
    /// what `forward` makes of its answer; the backends and rewrites stay.
    pub fn route_request(&mut self, req: &Request) -> (r: Result<(usize, Request), ClientError>)
        requires
            old(self).picker().can_pick(old(self).backends().len() as nat),
        ensures
            final(self).backends() == old(self).backends(),
            final(self).rewrites() == old(self).rewrites(),
            exists|p: Result<usize, PickerError>|
                {
                    &&& old(self).picker().picks(
                        old(self).backends().len() as nat,
                        p,
                        final(self).picker(),
                    )
                    &&& #[trigger] final(self).forwards(p, req@, r)
                },
    {
        let picked = self.picker.pick_backend(self.backends.len());
        let r = self.forward(picked, req);
        assert(self.forwards(picked, req@, r));
        r
    }
}

proof fn lemma_first_index(ps: Seq<(Seq<char>, Seq<char>)>, k: Seq<char>, i: int)
    requires
        0 <= i < ps.len(),
        ps[i].0 == k,
        forall|j: int| 0 <= j < i ==> ps[j].0 != k,
    ensures
        crate::router::param_index(ps, k) == Some(i),
    decreases i,
{
    if i > 0 {
        assert forall|j: int| 0 <= j < i - 1 implies ps.drop_first()[j].0 != k by {
            assert(ps.drop_first()[j] == ps[j + 1]);
        }
        lemma_first_index(ps.drop_first(), k, i - 1);
    }
}


/// Every header rewrite is set on the forwarded request, whatever the
/// request held: after the rewrites, the header that a rewrite names (lower
/// cased) holds exactly that rewrite's value, trimmed, unless a later rewrite
/// names it again; a header that no rewrite names keeps its values.
pub proof fn rewrites_set_headers(
    h: EntriesView,
    rs: Seq<(Seq<char>, Seq<char>)>,
    i: int,
    other: Seq<char>,
)
    ensures
        (0 <= i < rs.len() && forall|j: int|
            i < j < rs.len() ==> lowercase(#[trigger] rs[j].0) != lowercase(rs[i].0)) ==> lookup(
            rewritten(h, rs),
            lowercase(rs[i].0),
        ) == Some(seq![trim(rs[i].1)]),
        (forall|j: int| 0 <= j < rs.len() ==> lowercase(#[trigger] rs[j].0) != other) ==> lookup(
            rewritten(h, rs),
            other,
        ) == lookup(h, other),
    decreases rs.len(),
{
    if rs.len() > 0 {
        let d = rs.drop_last();
        let n = rs.len() - 1;
        let k = lowercase(rs[n].0);
        let prev = rewritten(h, d);
        assert(rs.last() == rs[n]);
        put_then_lookup(prev, k, seq![trim(rs[n].1)], lowercase(rs[i].0));
        put_then_lookup(prev, k, seq![trim(rs[n].1)], other);
        if 0 <= i < n && forall|j: int| i < j < rs.len() ==> lowercase(#[trigger] rs[j].0) != lowercase(
            rs[i].0,
        ) {
            assert(lowercase(rs[n].0) != lowercase(rs[i].0));
            assert forall|j: int| i < j < d.len() implies lowercase(#[trigger] d[j].0) != lowercase(
                d[i].0,
            ) by {
                assert(d[j] == rs[j]);
                assert(d[i] == rs[i]);
            }
            rewrites_set_headers(h, d, i, other);
            assert(d[i] == rs[i]);
        }
        if forall|j: int| 0 <= j < rs.len() ==> lowercase(#[trigger] rs[j].0) != other {
            assert(lowercase(rs[n].0) != other);
            assert forall|j: int| 0 <= j < d.len() implies lowercase(#[trigger] d[j].0) != other by {
                assert(d[j] == rs[j]);
            }
            rewrites_set_headers(h, d, i, other);
        }
    }
}

} // verus!
