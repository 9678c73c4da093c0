//! A handler that serves a web root: files, with index files for
//! directories. The file system is read by the caller; this module decides
//! the paths and what is written back.
use vstd::prelude::*;

use crate::handlers::file::{
    content_type_in, content_type_of, fs_path, fs_path_for, lemma_table_get_at, lemma_table_get_none,
    path_extension, table_get,
};
use crate::router::{push_component, push_path_component};
use crate::text::{str_eq, Text};

verus! {

/// Serves the files below a web root.
pub struct Web {
    base_fs_path: String,
    content_types: Vec<(String, String)>,
    index_files: Vec<String>,
    hosts: Vec<String>,
}

/// The content types of the web handler.
pub open spec fn web_types() -> Seq<(Seq<char>, Seq<char>)> {
    seq![
        ("html"@, "text/html"@),
        ("htm"@, "text/html"@),
        ("txt"@, "text/plain"@),
        ("js"@, "text/javascript"@),
        ("png"@, "image/png"@),
        ("jpg"@, "image/jpeg"@),
        ("jpeg"@, "image/jpeg"@),
        ("svg"@, "image/svg+xml"@),
    ]
}

impl Web {
    pub closed spec fn base(&self) -> Seq<char> {
        self.base_fs_path@
    }

    pub closed spec fn types(&self) -> Seq<(Seq<char>, Seq<char>)> {
        self.content_types.deep_view()
    }

    pub closed spec fn index_files(&self) -> Seq<Seq<char>> {
        self.index_files.deep_view()
    }

    pub closed spec fn hosts(&self) -> Seq<Seq<char>> {
        self.hosts.deep_view()
    }

    /// Serves `base_fs_path`, with `index.html` or else `index.htm` for a
    /// directory.
    pub fn new<T: Text>(base_fs_path: T) -> (w: Web)
        ensures
            w.base() == base_fs_path.text(),
            w.types() == web_types(),
            w.index_files() == seq!["index.html"@, "index.htm"@],
            w.hosts() == Seq::<Seq<char>>::empty(),
    {
        let mut t: Vec<(String, String)> = Vec::new();
        t.push(("html".to_string(), "text/html".to_string()));
        t.push(("htm".to_string(), "text/html".to_string()));
        t.push(("txt".to_string(), "text/plain".to_string()));
        t.push(("js".to_string(), "text/javascript".to_string()));
        t.push(("png".to_string(), "image/png".to_string()));
        t.push(("jpg".to_string(), "image/jpeg".to_string()));
        t.push(("jpeg".to_string(), "image/jpeg".to_string()));
        t.push(("svg".to_string(), "image/svg+xml".to_string()));
        assert(t.deep_view() =~= web_types());
        let mut idx: Vec<String> = Vec::new();
        idx.push("index.html".to_string());
        idx.push("index.htm".to_string());
        assert(idx.deep_view() =~= seq!["index.html"@, "index.htm"@]);
        let hosts: Vec<String> = Vec::new();
        assert(hosts.deep_view() =~= Seq::<Seq<char>>::empty());
        Web { base_fs_path: base_fs_path.to_text(), content_types: t, index_files: idx, hosts }
    }

    /// Serves `file` alone as the index of a directory.
    pub fn set_index(&mut self, file: String)
        ensures
            final(self).index_files() == seq![file@],
            final(self).base() == old(self).base(),
            final(self).types() == old(self).types(),
            final(self).hosts() == old(self).hosts(),
    {
        let mut idx: Vec<String> = Vec::new();
        idx.push(file);
        assert(idx.deep_view() =~= seq![idx@[0]@]);
        self.index_files = idx;
    }

    /// The file-system path for a request path.
    pub fn fs_path(&self, request_path: &str) -> (p: String)
        requires
            request_path@.len() > 0 ==> (request_path@[0] as u32) < 128,
        ensures
            p@ == fs_path_for(self.base(), request_path@),
    {
        fs_path(self.base_fs_path.as_str(), request_path)
    }

    /// The paths tried, in order, for a directory: each index file within it.
    pub fn index_candidates(&self, dir: &str) -> (r: Vec<String>)
        ensures
            r.deep_view() == self.index_files().map_values(|f: Seq<char>| push_component(dir@, f)),
    {
        let ghost want = self.index_files().map_values(|f: Seq<char>| push_component(dir@, f));
        let mut out: Vec<String> = Vec::new();
        let mut i: usize = 0;
        while i < self.index_files.len()
            invariant
                i <= self.index_files.len(),
                want == self.index_files().map_values(|f: Seq<char>| push_component(dir@, f)),
                out.deep_view() == want.take(i as int),
            decreases self.index_files.len() - i,
        {
            let mut p = dir.to_string();
            push_path_component(&mut p, &self.index_files[i]);
            assert(self.index_files()[i as int] == self.index_files@[i as int]@);
            let ghost before = out.deep_view();
            out.push(p);
            assert(out.deep_view() =~= before.push(p@));
            assert(want.take(i + 1) =~= want.take(i as int).push(want[i as int]));
            i = i + 1;
        }
        assert(want.take(self.index_files.len() as int) =~= want);
        out
    }

    /// The content type written for a file.
    pub fn content_type(&self, path: &str) -> (ct: String)
        ensures
            ct@ == content_type_in(self.types(), path@),
    {
        content_type_of(&self.content_types, path)
    }

    /// Whether a host is one the web root is served for.
    pub fn host_known(&self, host: &str) -> (r: bool)
        ensures
            r == self.hosts().contains(host@),
    {
        let mut i: usize = 0;
        while i < self.hosts.len()
            invariant
                i <= self.hosts.len(),
                forall|j: int| 0 <= j < i ==> self.hosts()[j] != host@,
            decreases self.hosts.len() - i,
        {
            assert(self.hosts()[i as int] == self.hosts@[i as int]@);
            if str_eq(self.hosts[i].as_str(), host) {
                assert(self.hosts().contains(host@));
                return true;
            }
            i = i + 1;
        }
        false
    }
}


/// The web handler serves each file by the type of its extension: `html` and `htm` as `text/html`, `txt` as `text/plain`, `js` as `text/javascript`, `png` as `image/png`, `jpg` and `jpeg` as `image/jpeg`, `svg` as `image/svg+xml`; a path without an extension as `text/plain`, and any other extension as `txt`.
pub proof fn web_content_types(path: Seq<char>, ext: Seq<char>)
    ensures
        table_get(web_types(), "html"@) == Some("text/html"@),
        table_get(web_types(), "htm"@) == Some("text/html"@),
        table_get(web_types(), "txt"@) == Some("text/plain"@),
        table_get(web_types(), "js"@) == Some("text/javascript"@),
        table_get(web_types(), "png"@) == Some("image/png"@),
        table_get(web_types(), "jpg"@) == Some("image/jpeg"@),
        table_get(web_types(), "jpeg"@) == Some("image/jpeg"@),
        table_get(web_types(), "svg"@) == Some("image/svg+xml"@),
        path_extension(path) == Some("html"@) ==> content_type_in(web_types(), path) == "text/html"@,
        path_extension(path) == Some("htm"@) ==> content_type_in(web_types(), path) == "text/html"@,
        path_extension(path) == Some("txt"@) ==> content_type_in(web_types(), path) == "text/plain"@,
        path_extension(path) == Some("js"@) ==> content_type_in(web_types(), path) == "text/javascript"@,
        path_extension(path) == Some("png"@) ==> content_type_in(web_types(), path) == "image/png"@,
        path_extension(path) == Some("jpg"@) ==> content_type_in(web_types(), path) == "image/jpeg"@,
        path_extension(path) == Some("jpeg"@) ==> content_type_in(web_types(), path) == "image/jpeg"@,
        path_extension(path) == Some("svg"@) ==> content_type_in(web_types(), path) == "image/svg+xml"@,
        path_extension(path) is None ==> content_type_in(web_types(), path) == "text/plain"@,
        ext != "html"@ && ext != "htm"@ && ext != "txt"@ && ext != "js"@ && ext != "png"@ && ext != "jpg"@ && ext != "jpeg"@ && ext != "svg"@ ==> table_get(web_types(), ext) is None,
        path_extension(path) == Some(ext) && ext != "html"@ && ext != "htm"@ && ext != "txt"@ && ext != "js"@ && ext != "png"@ && ext != "jpg"@ && ext != "jpeg"@ && ext != "svg"@ ==> content_type_in(web_types(), path) == "txt"@,
{
    reveal_strlit("html");
    reveal_strlit("htm");
    reveal_strlit("txt");
    reveal_strlit("js");
    reveal_strlit("png");
    reveal_strlit("jpg");
    reveal_strlit("jpeg");
    reveal_strlit("svg");
    reveal_strlit("text/html");
    reveal_strlit("text/plain");
    reveal_strlit("text/javascript");
    reveal_strlit("image/png");
    reveal_strlit("image/jpeg");
    reveal_strlit("image/svg+xml");
    assert("html"@.len() != "htm"@.len());
    assert("html"@.len() != "txt"@.len());
    assert("html"@.len() != "js"@.len());
    assert("html"@.len() != "png"@.len());
    assert("html"@.len() != "jpg"@.len());
    assert("html"@[0] != "jpeg"@[0]);
    assert("html"@.len() != "svg"@.len());
    assert("htm"@[0] != "txt"@[0]);
    assert("htm"@.len() != "js"@.len());
    assert("htm"@[0] != "png"@[0]);
    assert("htm"@[0] != "jpg"@[0]);
    assert("htm"@.len() != "jpeg"@.len());
    assert("htm"@[0] != "svg"@[0]);
    assert("txt"@.len() != "js"@.len());
    assert("txt"@[0] != "png"@[0]);
    assert("txt"@[0] != "jpg"@[0]);
    assert("txt"@.len() != "jpeg"@.len());
    assert("txt"@[0] != "svg"@[0]);
    assert("js"@.len() != "png"@.len());
    assert("js"@.len() != "jpg"@.len());
    assert("js"@.len() != "jpeg"@.len());
    assert("js"@.len() != "svg"@.len());
    assert("png"@[0] != "jpg"@[0]);
    assert("png"@.len() != "jpeg"@.len());
    assert("png"@[0] != "svg"@[0]);
    assert("jpg"@.len() != "jpeg"@.len());
    assert("jpg"@[0] != "svg"@[0]);
    assert("jpeg"@.len() != "svg"@.len());
    let t = web_types();
    lemma_table_get_at(t, "html"@, 0);
    lemma_table_get_at(t, "htm"@, 1);
    lemma_table_get_at(t, "txt"@, 2);
    lemma_table_get_at(t, "js"@, 3);
    lemma_table_get_at(t, "png"@, 4);
    lemma_table_get_at(t, "jpg"@, 5);
    lemma_table_get_at(t, "jpeg"@, 6);
    lemma_table_get_at(t, "svg"@, 7);
    if ext != "html"@ && ext != "htm"@ && ext != "txt"@ && ext != "js"@ && ext != "png"@ && ext != "jpg"@ && ext != "jpeg"@ && ext != "svg"@ {
        lemma_table_get_none(t, ext);
    }
}


} // verus!
