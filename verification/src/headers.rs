//! HTTP header fields: a multi-map from lower-cased names to lists of values.
use vstd::prelude::*;

use crate::text::{lowercase, push_str, string_of_range, to_lower, trim, trim_str, Text};

verus! {

/// One header name with its values.
pub type Entry = (String, Vec<String>);

/// The abstract form of the header fields: names with their values, in the
/// order in which each name was first stored.
pub type EntriesView = Seq<(Seq<char>, Seq<Seq<char>>)>;

/// The position of name `k` among the entries, if it is present.
pub open spec fn key_index(e: EntriesView, k: Seq<char>) -> Option<int>
    decreases e.len(),
{
    if e.len() == 0 {
        None
    } else if e[0].0 == k {
        Some(0)
    } else {
        match key_index(e.drop_first(), k) {
            Some(i) => Some(i + 1),
            None => None,
        }
    }
}

/// The values stored under name `k`.
pub open spec fn lookup(e: EntriesView, k: Seq<char>) -> Option<Seq<Seq<char>>> {
    match key_index(e, k) {
        Some(i) => Some(e[i].1),
        None => None,
    }
}

/// No name occurs twice.
pub open spec fn keys_unique(e: EntriesView) -> bool {
    forall|i: int, j: int| 0 <= i < j < e.len() ==> #[trigger] e[i].0 != #[trigger] e[j].0
}

/// Stores `vs` under `k`: replaces the values of an existing name in place,
/// or appends a new entry.
pub open spec fn put(e: EntriesView, k: Seq<char>, vs: Seq<Seq<char>>) -> EntriesView {
    match key_index(e, k) {
        Some(i) => e.update(i, (k, vs)),
        None => e.push((k, vs)),
    }
}

/// Removes name `k` and its values.
pub open spec fn delete(e: EntriesView, k: Seq<char>) -> EntriesView {
    match key_index(e, k) {
        Some(i) => e.remove(i),
        None => e,
    }
}

/// The values under `k`, or none.
pub open spec fn values_or_empty(e: EntriesView, k: Seq<char>) -> Seq<Seq<char>> {
    match lookup(e, k) {
        Some(vs) => vs,
        None => Seq::<Seq<char>>::empty(),
    }
}

pub proof fn lemma_key_index(e: EntriesView, k: Seq<char>)
    ensures
        key_index(e, k) matches Some(i) ==> 0 <= i < e.len() && e[i].0 == k && forall|j: int|
            0 <= j < i ==> e[j].0 != k,
        key_index(e, k) is None ==> forall|j: int| 0 <= j < e.len() ==> e[j].0 != k,
    decreases e.len(),
{
    if e.len() > 0 {
        lemma_key_index(e.drop_first(), k);
        if e[0].0 != k {
            assert forall|j: int| 1 <= j < e.len() implies e[j] == e.drop_first()[j - 1] by {}
        }
    }
}

pub proof fn lemma_key_index_unique(e: EntriesView, k: Seq<char>, i: int)
    requires
        keys_unique(e),
        0 <= i < e.len(),
        e[i].0 == k,
    ensures
        key_index(e, k) == Some(i),
{
    lemma_key_index(e, k);
    if let Some(j) = key_index(e, k) {
        if j != i {
            if j < i {
                assert(e[j].0 != e[i].0);
            }
        }
    }
}

pub proof fn lemma_put_unique(e: EntriesView, k: Seq<char>, vs: Seq<Seq<char>>)
    requires
        keys_unique(e),
    ensures
        keys_unique(put(e, k, vs)),
        key_index(put(e, k, vs), k) is Some,
        lookup(put(e, k, vs), k) == Some(vs),
{
    lemma_key_index(e, k);
    let p = put(e, k, vs);
    match key_index(e, k) {
        Some(i) => {
            assert forall|a: int, b: int| 0 <= a < b < p.len() implies #[trigger] p[a].0
                != #[trigger] p[b].0 by {
                if a != i && b != i {
                    assert(e[a].0 != e[b].0);
                } else if a == i {
                    assert(e[a].0 != e[b].0);
                } else {
                    assert(e[a].0 != e[b].0);
                }
            }
            lemma_key_index_unique(p, k, i);
        },
        None => {
            assert forall|a: int, b: int| 0 <= a < b < p.len() implies #[trigger] p[a].0
                != #[trigger] p[b].0 by {
                if b < e.len() {
                    assert(e[a].0 != e[b].0);
                }
            }
            lemma_key_index_unique(p, k, e.len() as int);
        },
    }
}

pub proof fn lemma_delete_unique(e: EntriesView, k: Seq<char>)
    requires
        keys_unique(e),
    ensures
        keys_unique(delete(e, k)),
        lookup(delete(e, k), k) is None,
{
    lemma_key_index(e, k);
    let d = delete(e, k);
    match key_index(e, k) {
        Some(i) => {
            assert forall|a: int, b: int| 0 <= a < b < d.len() implies #[trigger] d[a].0
                != #[trigger] d[b].0 by {
                let a2 = if a < i {
                    a
                } else {
                    a + 1
                };
                let b2 = if b < i {
                    b
                } else {
                    b + 1
                };
                assert(d[a] == e[a2]);
                assert(d[b] == e[b2]);
                assert(e[a2].0 != e[b2].0);
            }
            assert forall|j: int| 0 <= j < d.len() implies d[j].0 != k by {
                let j2 = if j < i {
                    j
                } else {
                    j + 1
                };
                assert(d[j] == e[j2]);
                if j2 != i {
                    if j2 < i {
                        assert(e[j2].0 != e[i].0);
                    } else {
                        assert(e[i].0 != e[j2].0);
                    }
                }
            }
            lemma_key_index(d, k);
        },
        None => {},
    }
}

/// The first entry named `k` is at `i`.
pub proof fn lemma_key_index_first(e: EntriesView, k: Seq<char>, i: int)
    requires
        0 <= i < e.len(),
        e[i].0 == k,
        forall|j: int| 0 <= j < i ==> e[j].0 != k,
    ensures
        key_index(e, k) == Some(i),
{
    lemma_key_index(e, k);
}

/// A header write is read back: after values are stored under a name,
/// looking the name up gives those values, and every other name keeps the
/// values it had.
pub proof fn put_then_lookup(e: EntriesView, k: Seq<char>, vs: Seq<Seq<char>>, other: Seq<char>)
    ensures
        lookup(put(e, k, vs), k) == Some(vs),
        other != k ==> lookup(put(e, k, vs), other) == lookup(e, other),
{
    lemma_key_index(e, k);
    let p = put(e, k, vs);
    let at: int = match key_index(e, k) {
        Some(i) => i,
        None => e.len() as int,
    };
    assert(p.len() >= e.len());
    assert(p[at] == (k, vs));
    assert forall|x: int| 0 <= x < p.len() && x != at implies x < e.len() && #[trigger] p[x]
        == e[x] by {}
    assert forall|x: int| 0 <= x < at implies #[trigger] p[x].0 != k by {
        assert(p[x] == e[x]);
    }
    lemma_key_index_first(p, k, at);
    if other != k {
        lemma_key_index(e, other);
        lemma_key_index(p, other);
        match key_index(e, other) {
            Some(j) => {
                assert(j != at);
                assert(p[j] == e[j]);
                assert forall|x: int| 0 <= x < j implies #[trigger] p[x].0 != other by {
                    if x != at {
                        assert(p[x] == e[x]);
                    }
                }
                lemma_key_index_first(p, other, j);
            },
            None => {
                if let Some(j) = key_index(p, other) {
                    assert(j != at);
                    assert(p[j] == e[j]);
                }
            },
        }
    }
}

/// A removed name is read as absent, and every other name keeps the values
/// it had. Names must be unique, as they are in every header map (the type
/// invariant `Fields::unique`).
pub proof fn delete_then_lookup(e: EntriesView, k: Seq<char>, other: Seq<char>)
    requires
        keys_unique(e),
    ensures
        lookup(delete(e, k), k) is None,
        other != k ==> lookup(delete(e, k), other) == lookup(e, other),
{
    lemma_delete_unique(e, k);
    let d = delete(e, k);
    if other != k {
        lemma_key_index(e, k);
        lemma_key_index(e, other);
        lemma_key_index(d, other);
        match key_index(e, k) {
            Some(i) => match key_index(e, other) {
                Some(j) => {
                    let j2 = if j < i {
                        j
                    } else {
                        j - 1
                    };
                    assert(d[j2] == e[j]);
                    lemma_key_index_unique(d, other, j2);
                },
                None => {
                    if let Some(j) = key_index(d, other) {
                        let j2 = if j < i {
                            j
                        } else {
                            j + 1
                        };
                        assert(d[j] == e[j2]);
                    }
                },
            },
            None => {},
        }
    }
}

/// The entries of a header map; no name is stored twice.
#[derive(Debug)]
pub struct Fields {
    entries: Vec<Entry>,
}

impl Fields {
    pub closed spec fn view(&self) -> EntriesView {
        self.entries.deep_view()
    }

    /// No name is stored twice; every header map holds this, and a caller
    /// learns it by `use_type_invariant`.
    #[verifier::type_invariant]
    pub open spec fn unique(&self) -> bool {
        keys_unique(self.view())
    }

    pub fn new() -> (f: Fields)
        ensures
            f.view() == Seq::<(Seq<char>, Seq<Seq<char>>)>::empty(),
    {
        let f = Fields { entries: Vec::new() };
        assert(f.entries.deep_view() =~= Seq::<(Seq<char>, Seq<Seq<char>>)>::empty());
        f
    }

    /// A copy of the entries.
    pub fn copy(&self) -> (r: Fields)
        ensures
            r.view() == self.view(),
    {
        proof {
            use_type_invariant(self);
        }
        let mut es: Vec<Entry> = Vec::new();
        let mut i: usize = 0;
        while i < self.entries.len()
            invariant
                i <= self.entries.len(),
                es.deep_view() == self.entries.deep_view().take(i as int),
            decreases self.entries.len() - i,
        {
            let k = self.entries[i].0.clone();
            let vs = copy_strings(&self.entries[i].1);
            let ghost before = es.deep_view();
            es.push((k, vs));
            assert(es.deep_view() =~= before.push((k@, vs.deep_view())));
            assert(self.entries.deep_view()[i as int] == (self.entries@[i as int].0@,
                self.entries@[i as int].1.deep_view()));
            i = i + 1;
            assert(es.deep_view() =~= self.entries.deep_view().take(i as int));
        }
        assert(self.entries.deep_view().take(i as int) =~= self.entries.deep_view());
        Fields { entries: es }
    }

    /// The number of distinct names.
    pub fn len(&self) -> (n: usize)
        ensures
            n == self.view().len(),
    {
        self.entries.len()
    }

    /// The position of an exact name.
    fn position(&self, key: &String) -> (r: Option<usize>)
        ensures
            r matches Some(i) ==> key_index(self.view(), key@) == Some(i as int),
            r is None ==> key_index(self.view(), key@) is None,
    {
        let mut i: usize = 0;
        while i < self.entries.len()
            invariant
                i <= self.entries.len(),
                forall|j: int| 0 <= j < i ==> self.view()[j].0 != key@,
            decreases self.entries.len() - i,
        {
            if self.entries[i].0 == *key {
                proof {
                    lemma_key_index(self.view(), key@);
                    assert(self.view()[i as int].0 == key@);
                    if let Some(k) = key_index(self.view(), key@) {
                        assert(k == i);
                    }
                }
                return Some(i);
            }
            assert(self.view()[i as int].0 != key@);
            i = i + 1;
        }
        proof {
            lemma_key_index(self.view(), key@);
            if let Some(k) = key_index(self.view(), key@) {
                assert(self.view()[k].0 == key@);
            }
        }
        None
    }

    /// The values stored under exactly this name.
    pub fn get(&self, key: &str) -> (r: Option<&Vec<String>>)
        ensures
            r matches Some(vs) ==> lookup(self.view(), key@) == Some(vs.deep_view()),
            r is None ==> lookup(self.view(), key@) is None,
    {
        let k = key.to_string();
        match self.position(&k) {
            Some(i) => {
                proof {
                    lemma_key_index(self.view(), key@);
                }
                assert(self.view()[i as int].1 == self.entries@[i as int].1.deep_view());
                Some(&self.entries[i].1)
            },
            None => None,
        }
    }

    /// Stores `vs` under `key`, keeping the position of an existing name.
    fn put(&mut self, key: String, vs: Vec<String>)
        ensures
            final(self).view() == put(old(self).view(), key@, vs.deep_view()),
    {
        proof {
            use_type_invariant(&*self);
            lemma_put_unique(self.view(), key@, vs.deep_view());
        }
        let ghost e = self.view();
        let pos = self.position(&key);
        proof {
            lemma_key_index(e, key@);
        }
        let mut es: Vec<Entry> = Vec::new();
        std::mem::swap(&mut es, &mut self.entries);
        assert(es.deep_view() == e);
        match pos {
            Some(i) => {
                es.set(i, (key, vs));
            },
            None => {
                es.push((key, vs));
            },
        }
        assert(es.deep_view() =~= put(e, key@, vs.deep_view()));
        self.entries = es;
    }

    fn delete(&mut self, key: &String)
        ensures
            final(self).view() == delete(old(self).view(), key@),
    {
        proof {
            use_type_invariant(&*self);
            lemma_delete_unique(self.view(), key@);
        }
        let ghost e = self.view();
        let pos = self.position(key);
        proof {
            lemma_key_index(e, key@);
        }
        let mut es: Vec<Entry> = Vec::new();
        std::mem::swap(&mut es, &mut self.entries);
        assert(es.deep_view() == e);
        match pos {
            Some(i) => {
                es.remove(i);
            },
            None => {},
        }
        assert(es.deep_view() =~= delete(e, key@));
        self.entries = es;
    }

    /// The entries in order.
    pub fn entries(&self) -> (r: &[Entry])
        ensures
            r.deep_view() == self.view(),
    {
        self.entries.as_slice()
    }
}

/// Copies a list of strings.
pub fn copy_strings(v: &Vec<String>) -> (r: Vec<String>)
    ensures
        r.deep_view() == v.deep_view(),
{
    let mut r: Vec<String> = Vec::new();
    let mut i: usize = 0;
    while i < v.len()
        invariant
            i <= v.len(),
            r.deep_view() == v.deep_view().take(i as int),
        decreases v.len() - i,
    {
        let c = v[i].clone();
        let ghost before = r.deep_view();
        r.push(c);
        assert(r.deep_view() =~= before.push(v@[i as int]@));
        assert(v.deep_view()[i as int] == v@[i as int]@);
        i = i + 1;
        assert(r.deep_view() =~= v.deep_view().take(i as int));
    }
    assert(v.deep_view().take(v.len() as int) =~= v.deep_view());
    r
}

/// The first value stored under exactly the name `k`.
pub open spec fn first_value(e: EntriesView, k: Seq<char>) -> Option<Seq<char>> {
    match lookup(e, k) {
        Some(vs) => if vs.len() > 0 {
            Some(vs[0])
        } else {
            None
        },
        None => None,
    }
}

/// One serialized header line: `name: value`.
pub open spec fn header_line(k: Seq<char>, v: Seq<char>) -> Seq<char> {
    k + ": "@ + v
}

/// Every header line followed by CRLF, entry after entry, value after value.
pub open spec fn lines_crlf(e: EntriesView) -> Seq<char>
    decreases e.len(),
{
    if e.len() == 0 {
        Seq::<char>::empty()
    } else {
        lines_crlf(e.drop_last()) + values_crlf(e.last().0, e.last().1)
    }
}

pub open spec fn values_crlf(k: Seq<char>, vs: Seq<Seq<char>>) -> Seq<char>
    decreases vs.len(),
{
    if vs.len() == 0 {
        Seq::<char>::empty()
    } else {
        values_crlf(k, vs.drop_last()) + header_line(k, vs.last()) + "\r\n"@
    }
}

/// The header block without its final CRLF, as `Headers::serialize` writes it.
pub open spec fn serialized(e: EntriesView) -> Seq<char> {
    let all = lines_crlf(e);
    if all.len() > 2 {
        all.take(all.len() - 2)
    } else {
        all
    }
}

/// A set of HTTP header fields. Names are stored in lower case and values
/// without surrounding whitespace.
#[derive(Debug)]
pub struct Headers {
    pub fields: Fields,
}

impl Clone for Fields {
    fn clone(&self) -> (r: Self)
        ensures
            r.view() == self.view(),
    {
        self.copy()
    }
}

impl Clone for Headers {
    fn clone(&self) -> (r: Self)
        ensures
            r@ == self@,
    {
        Headers { fields: self.fields.copy() }
    }
}

impl Headers {
    pub open spec fn view(&self) -> EntriesView {
        self.fields.view()
    }

    pub fn new() -> (h: Headers)
        ensures
            h@ == Seq::<(Seq<char>, Seq<Seq<char>>)>::empty(),
    {
        Headers { fields: Fields::new() }
    }


    /// The number of distinct names.
    pub fn len(&self) -> (n: usize)
        ensures
            n == self@.len(),
    {
        self.fields.len()
    }

    /// Appends a value under the lower-cased name.
    pub fn add<K: Text, V: Text>(&mut self, key: K, value: V)
        ensures
            final(self)@ == put(
                old(self)@,
                lowercase(key.text()),
                values_or_empty(old(self)@, lowercase(key.text())).push(trim(value.text())),
            ),
    {
        let k = to_lower(key.to_text().as_str());
        let v = trim_str(value.to_text().as_str());
        let mut vs = match self.fields.get(k.as_str()) {
            Some(old_vs) => copy_strings(old_vs),
            None => Vec::new(),
        };
        proof {
            assert(vs.deep_view() == values_or_empty(self@, k@));
        }
        let ghost before = vs.deep_view();
        vs.push(v);
        assert(vs.deep_view() =~= before.push(trim(value.text())));
        self.fields.put(k, vs);
    }

    /// Adds a `name: value` line.
    pub fn add_from(&mut self, line: &str)
        requires
            crate::text::split(line@, ':').len() >= 2,
        ensures
            ({
                let parts = crate::text::split(line@, ':');
                let k = lowercase(trim(parts[0]));
                final(self)@ == put(
                    old(self)@,
                    k,
                    values_or_empty(old(self)@, k).push(trim(trim(parts[1]))),
                )
            }),
    {
        let cs = crate::text::chars_of(line);
        let parts = crate::text::split_chars(cs.as_slice(), ':');
        assert(parts@.map_values(|x: String| x@)[0] == parts@[0]@);
        assert(parts@.map_values(|x: String| x@)[1] == parts@[1]@);
        let k = trim_str(parts[0].as_str());
        let v = trim_str(parts[1].as_str());
        self.add(k, v);
    }

    /// The values stored under a name, compared without case.
    pub fn get(&self, key: &str) -> (r: Option<&Vec<String>>)
        ensures
            r matches Some(vs) ==> lookup(self@, lowercase(key@)) == Some(vs.deep_view()),
            r is None ==> lookup(self@, lowercase(key@)) is None,
    {
        let k = to_lower(key);
        self.fields.get(k.as_str())
    }

    /// Appends `default` under the name and returns the first value stored
    /// under it.
    pub fn get_first_or_set<V: Text>(&mut self, key: &str, default: V) -> (r: String)
        ensures
            final(self)@ == put(
                old(self)@,
                lowercase(key@),
                values_or_empty(old(self)@, lowercase(key@)).push(trim(default.text())),
            ),
            r@ == values_or_empty(old(self)@, lowercase(key@)).push(trim(default.text()))[0],
    {
        let k = to_lower(key);
        let d = trim_str(default.to_text().as_str());
        let mut vs = match self.fields.get(k.as_str()) {
            Some(old_vs) => copy_strings(old_vs),
            None => Vec::new(),
        };
        proof {
            assert(vs.deep_view() == values_or_empty(self@, k@));
        }
        let ghost before = vs.deep_view();
        vs.push(d);
        assert(vs.deep_view() =~= before.push(trim(default.text())));
        let first = vs[0].clone();
        assert(first@ == vs.deep_view()[0]);
        self.fields.put(k, vs);
        first
    }

    /// The first value stored under a name.
    pub fn get_first(&self, key: &str) -> (r: Option<&String>)
        ensures
            r matches Some(v) ==> lookup(self@, lowercase(key@)) matches Some(vs) && vs.len() > 0
                && v@ == vs[0],
            r is None ==> (lookup(self@, lowercase(key@)) matches Some(vs) ==> vs.len() == 0),
    {
        match self.get(key) {
            Some(vs) => {
                if vs.len() > 0 {
                    assert(vs.deep_view()[0] == vs@[0]@);
                    Some(&vs[0])
                } else {
                    None
                }
            },
            None => None,
        }
    }

    /// The last value stored under a name.
    pub fn get_last(&self, key: &str) -> (r: Option<&String>)
        ensures
            r matches Some(v) ==> lookup(self@, lowercase(key@)) matches Some(vs) && vs.len() > 0
                && v@ == vs.last(),
            r is None ==> (lookup(self@, lowercase(key@)) matches Some(vs) ==> vs.len() == 0),
    {
        match self.get(key) {
            Some(vs) => {
                let n = vs.len();
                if n > 0 {
                    assert(vs.deep_view()[n - 1] == vs@[n - 1]@);
                    Some(&vs[n - 1])
                } else {
                    None
                }
            },
            None => None,
        }
    }

    /// Removes a name and all of its values.
    pub fn remove(&mut self, key: &str)
        ensures
            final(self)@ == delete(old(self)@, lowercase(key@)),
    {
        let k = to_lower(key);
        self.fields.delete(&k);
    }

    /// Replaces the values of a name with a single value.
    pub fn set<K: Text, V: Text>(&mut self, key: K, value: V)
        ensures
            final(self)@ == put(old(self)@, lowercase(key.text()), seq![trim(value.text())]),
    {
        let k = to_lower(key.to_text().as_str());
        let v = trim_str(value.to_text().as_str());
        let mut vs: Vec<String> = Vec::new();
        vs.push(v);
        assert(vs.deep_view() =~= seq![trim(value.text())]);
        self.fields.put(k, vs);
    }

    /// Replaces the values of a name with the given values, unchanged.
    pub fn set_multiple<K: Text>(&mut self, key: K, new_values: Vec<String>)
        ensures
            final(self)@ == put(old(self)@, lowercase(key.text()), new_values.deep_view()),
    {
        let k = to_lower(key.to_text().as_str());
        self.fields.put(k, new_values);
    }

    /// Stores a single value under exactly this name (no case folding or
    /// trimming), replacing any values stored under it.
    pub fn insert(&mut self, key: String, value: String)
        ensures
            final(self)@ == put(old(self)@, key@, seq![value@]),
    {
        let mut vs: Vec<String> = Vec::new();
        vs.push(value);
        assert(vs.deep_view() =~= seq![value@]);
        self.fields.put(key, vs);
    }

    /// The first value stored under exactly this name.
    pub fn first_value(&self, key: &str) -> (r: Option<&String>)
        ensures
            r matches Some(v) ==> first_value(self@, key@) == Some(v@),
            r is None ==> first_value(self@, key@) is None,
    {
        match self.fields.get(key) {
            Some(vs) => {
                if vs.len() > 0 {
                    assert(vs.deep_view()[0] == vs@[0]@);
                    Some(&vs[0])
                } else {
                    None
                }
            },
            None => None,
        }
    }

    /// The names and their values, in order.
    pub fn iter(&self) -> (r: &[Entry])
        ensures
            r.deep_view() == self@,
    {
        self.fields.entries()
    }

    /// The header block: one `name: value` line per value, separated by CRLF.
    pub fn serialize(&self) -> (s: String)
        ensures
            s@ == serialized(self@),
    {
        let entries = self.fields.entries();
        let mut out = String::new();
        let mut i: usize = 0;
        while i < entries.len()
            invariant
                i <= entries.len(),
                entries.deep_view() == self@,
                out@ == lines_crlf(self@.take(i as int)),
            decreases entries.len() - i,
        {
            let (ref k, ref vs) = entries[i];
            let ghost before = out@;
            let mut j: usize = 0;
            assert(entries.deep_view()[i as int] == (k@, vs.deep_view()));
            while j < vs.len()
                invariant
                    j <= vs.len(),
                    out@ == before + values_crlf(k@, vs.deep_view().take(j as int)),
                decreases vs.len() - j,
            {
                let ghost b2 = out@;
                push_str(&mut out, k.as_str());
                push_str(&mut out, ": ");
                push_str(&mut out, vs[j].as_str());
                push_str(&mut out, "\r\n");
                assert(vs.deep_view().take(j + 1).drop_last() =~= vs.deep_view().take(j as int));
                assert(vs.deep_view()[j as int] == vs@[j as int]@);
                assert(out@ =~= before + values_crlf(k@, vs.deep_view().take(j + 1)));
                j = j + 1;
            }
            assert(vs.deep_view().take(vs.len() as int) =~= vs.deep_view());
            assert(self@.take(i + 1).drop_last() =~= self@.take(i as int));
            i = i + 1;
        }
        assert(self@.take(entries.len() as int) =~= self@);
        if out.unicode_len() > 2 {
            let cs = crate::text::chars_of(out.as_str());
            string_of_range(cs.as_slice(), 0, cs.len() - 2)
        } else {
            out
        }
    }
}

} // verus!
