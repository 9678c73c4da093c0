//! A handler that serves files and directory listings below a directory.
//! The file system is read by the caller; this module decides which path is
//! served and what is written back.
use vstd::prelude::*;

use crate::headers::put;
use crate::parser::text_body;
use crate::request::Request;
use crate::response::{response_text, Response};
use crate::router::{push_component, push_path_component};
use crate::status::Code;
use crate::text::{chars_of, lowercase, push_str, str_eq, string_of_range, trim, Text};

verus! {

/// The extension of the file name of a path, as `Path::extension` finds it:
/// the file name is the last component when it is neither the root, `.` nor
/// `..`; the extension is what follows its last `.`, unless that `.` begins
/// the name.
#[verifier::opaque]
pub open spec fn path_extension(p: Seq<char>) -> Option<Seq<char>> {
    let cs = crate::router::path_components(p);
    if cs.len() == 0 || cs.last() == "/"@ || cs.last() == "."@ || cs.last() == ".."@ {
        None
    } else {
        let name = cs.last();
        if exists|i: int| 0 < i < name.len() && name[i] == '.' {
            let i = choose|i: int|
                0 < i < name.len() && name[i] == '.' && forall|j: int|
                    i < j < name.len() ==> name[j] != '.';
            Some(name.subrange(i + 1, name.len() as int))
        } else {
            None
        }
    }
}

/// Wraps `Path::extension`. The path is a `&str`, so the extension is valid
/// UTF-8 and comes back as it is.
#[verifier::external_body]
pub(crate) fn extension_of(p: &str) -> (r: Option<String>)
    ensures
        r matches Some(e) ==> path_extension(p@) == Some(e@),
        r is None ==> path_extension(p@) is None,
{
    std::path::Path::new(p).extension().map(|e| e.to_string_lossy().into_owned())
}

/// The file-system path for a request path: the request path without its
/// first character pushed onto the base path (an absolute rest replaces the
/// base).
pub open spec fn fs_path_for(base: Seq<char>, request_path: Seq<char>) -> Seq<char> {
    if request_path.len() == 0 {
        push_component(Seq::empty(), base)
    } else {
        push_component(push_component(Seq::empty(), base), request_path.drop_first())
    }
}

/// The file-system path for a request path; its first character must be a
/// single byte, as the request paths of a URL are.
pub fn fs_path(base: &str, request_path: &str) -> (p: String)
    requires
        request_path@.len() > 0 ==> (request_path@[0] as u32) < 128,
    ensures
        p@ == fs_path_for(base@, request_path@),
{
    let mut p = String::new();
    let b = base.to_string();
    push_path_component(&mut p, &b);
    let rc = chars_of(request_path);
    if rc.len() > 0 {
        let rest = string_of_range(rc.as_slice(), 1, rc.len());
        assert(rest@ == request_path@.drop_first());
        push_path_component(&mut p, &rest);
    }
    p
}

/// The value stored under a name in a table of name-value pairs.
pub open spec fn table_get(t: Seq<(Seq<char>, Seq<char>)>, k: Seq<char>) -> Option<Seq<char>>
    decreases t.len(),
{
    if t.len() == 0 {
        None
    } else if t[0].0 == k {
        Some(t[0].1)
    } else {
        table_get(t.drop_first(), k)
    }
}

/// The content type written for a path: the table's entry for its extension
/// (`txt` when it has none), or `txt` when the table has no entry.
pub open spec fn content_type_in(t: Seq<(Seq<char>, Seq<char>)>, path: Seq<char>) -> Seq<char> {
    let ext = match path_extension(path) {
        Some(e) => e,
        None => "txt"@,
    };
    match table_get(t, ext) {
        Some(ct) => ct,
        None => "txt"@,
    }
}

pub(crate) fn table_lookup(t: &Vec<(String, String)>, k: &str) -> (r: Option<String>)
    ensures
        r matches Some(v) ==> table_get(t.deep_view(), k@) == Some(v@),
        r is None ==> table_get(t.deep_view(), k@) is None,
{
    let ghost tv = t.deep_view();
    let mut i: usize = 0;
    assert(tv.skip(0) =~= tv);
    while i < t.len()
        invariant
            i <= t.len(),
            tv == t.deep_view(),
            table_get(tv, k@) == table_get(tv.skip(i as int), k@),
        decreases t.len() - i,
    {
        assert(tv.skip(i as int).drop_first() =~= tv.skip(i + 1));
        assert(tv.skip(i as int)[0] == (t@[i as int].0@, t@[i as int].1@));
        if str_eq(t[i].0.as_str(), k) {
            return Some(t[i].1.clone());
        }
        i = i + 1;
    }
    None
}

pub(crate) fn content_type_of(t: &Vec<(String, String)>, path: &str) -> (ct: String)
    ensures
        ct@ == content_type_in(t.deep_view(), path@),
{
    let ext = match extension_of(path) {
        Some(e) => e,
        None => "txt".to_string(),
    };
    match table_lookup(t, ext.as_str()) {
        Some(ct) => ct,
        None => "txt".to_string(),
    }
}

/// A response with a status, a `Content-Type` header and a text body.
pub fn file_response(status: Code, content_type: &str, body: &str) -> (t: String)
    ensures
        t@ == response_text(
            (status.0, status.1@),
            put(Seq::empty(), lowercase("Content-Type"@), seq![trim(content_type@)]),
            text_body(body@),
        ),
{
    let mut response = Response::new(crate::status::from(status));
    response.set_header("Content-Type", content_type);
    assert(response@.headers =~= put(
        Seq::empty(),
        lowercase("Content-Type"@),
        seq![trim(content_type@)],
    ));
    response.set_body(body);
    response.serialize()
}

/// Whether a character is written as itself when a string is shown with
/// `{:?}`: printable ASCII other than a quote or a backslash.
pub open spec fn plain_char(c: char) -> bool {
    ' ' <= c && c <= '~' && c != '"' && c != '\\'
}

/// The `404 Not Found` answer to a failed request, naming the failure as
/// `Failed("...")`.
pub fn not_found_text(msg: &str) -> (t: String)
    requires
        forall|i: int| 0 <= i < msg@.len() ==> plain_char(#[trigger] msg@[i]),
    ensures
        t@ == response_text(
            (404u16, "Not Found"@),
            put(Seq::empty(), lowercase("Content-Type"@), seq![trim("text/plain"@)]),
            text_body("404 NOT FOUND - Failed(\""@ + msg@ + "\")"@),
        ),
{
    let mut body = String::new();
    push_str(&mut body, "404 NOT FOUND - Failed(\"");
    push_str(&mut body, msg);
    push_str(&mut body, "\")");
    file_response(crate::status::NOT_FOUND, "text/plain", body.as_str())
}

/// Serves the files below a directory.
pub struct File {
    base_fs_path: String,
    content_types: Vec<(String, String)>,
}

/// The content types of the file handler.
pub open spec fn file_types() -> Seq<(Seq<char>, Seq<char>)> {
    seq![
        ("html"@, "text/html"@),
        ("htm"@, "text/html"@),
        ("txt"@, "text/plain"@),
        ("png"@, "image/png"@),
        ("jpg"@, "image/jpeg"@),
        ("jpeg"@, "image/jpeg"@),
    ]
}

/// One line of a directory listing.
pub open spec fn listing_line(href: Seq<char>, name: Seq<char>) -> Seq<char> {
    "  <li><a href='"@ + href + "'>"@ + name + "</a></li>\n"@
}

/// The link to a directory entry: `/`, the handler path, the directory below
/// the base, and the name, pushed in turn.
pub open spec fn entry_href(handler_path: Seq<char>, rel: Seq<char>, name: Seq<char>) -> Seq<char> {
    push_component(push_component(push_component("/"@, handler_path), rel), name)
}

/// The lines of a directory listing.
pub open spec fn listing_lines(handler_path: Seq<char>, rel: Seq<char>, names: Seq<Seq<char>>) -> Seq<
    char,
>
    decreases names.len(),
{
    if names.len() == 0 {
        Seq::empty()
    } else {
        listing_lines(handler_path, rel, names.drop_last()) + listing_line(
            entry_href(handler_path, rel, names.last()),
            names.last(),
        )
    }
}

impl File {
    pub closed spec fn base(&self) -> Seq<char> {
        self.base_fs_path@
    }

    pub closed spec fn types(&self) -> Seq<(Seq<char>, Seq<char>)> {
        self.content_types.deep_view()
    }

    pub fn new<T: Text>(base_fs_path: T) -> (f: File)
        ensures
            f.base() == base_fs_path.text(),
            f.types() == file_types(),
    {
        let mut t: Vec<(String, String)> = Vec::new();
        t.push(("html".to_string(), "text/html".to_string()));
        t.push(("htm".to_string(), "text/html".to_string()));
        t.push(("txt".to_string(), "text/plain".to_string()));
        t.push(("png".to_string(), "image/png".to_string()));
        t.push(("jpg".to_string(), "image/jpeg".to_string()));
        t.push(("jpeg".to_string(), "image/jpeg".to_string()));
        assert(t.deep_view() =~= file_types());
        File { base_fs_path: base_fs_path.to_text(), content_types: t }
    }

    /// The file-system path for a request path.
    pub fn fs_path(&self, request_path: &str) -> (p: String)
        requires
            request_path@.len() > 0 ==> (request_path@[0] as u32) < 128,
        ensures
            p@ == fs_path_for(self.base(), request_path@),
    {
        fs_path(self.base_fs_path.as_str(), request_path)
    }

    /// The content type written for a file.
    pub fn content_type(&self, path: &str) -> (ct: String)
        ensures
            ct@ == content_type_in(self.types(), path@),
    {
        content_type_of(&self.content_types, path)
    }

    /// The handler path used in listings: that of the request without a
    /// leading `/`, or empty.
    pub fn handler_path_of(req: &Request) -> (h: String)
        ensures
            h@ == (match req@.handler_path {
                Some(p) => if p.len() > 0 && p[0] == '/' {
                    p.drop_first()
                } else {
                    p
                },
                None => Seq::<char>::empty(),
            }),
    {
        match req.handler_path() {
            Some(p) => {
                let pc = chars_of(p.as_str());
                if pc.len() > 0 && pc[0] == '/' {
                    string_of_range(pc.as_slice(), 1, pc.len())
                } else {
                    p.clone()
                }
            },
            None => String::new(),
        }
    }

    /// The listing of a directory whose entries have the given names; the
    /// directory must lie below the base path.
    pub fn dir_listing(&self, fs_path: &str, handler_path: &str, names: &Vec<String>) -> (t: String)
        requires
            self.base().is_prefix_of(fs_path@),
        ensures
            t@ == response_text(
                (200u16, "OK"@),
                put(Seq::empty(), lowercase("Content-Type"@), seq![trim("text/html"@)]),
                text_body(
                    "<ul>\n"@ + listing_lines(
                        handler_path@,
                        fs_path@.skip(self.base().len() as int),
                        names.deep_view(),
                    ) + "<ul>\n"@,
                ),
            ),
    {
        let fc = chars_of(fs_path);
        let rel = string_of_range(fc.as_slice(), self.base_fs_path.unicode_len(), fc.len());
        let hp = handler_path.to_string();
        let mut body = String::new();
        push_str(&mut body, "<ul>\n");
        let ghost nv = names.deep_view();
        let mut i: usize = 0;
        assert(nv.take(0) =~= Seq::<Seq<char>>::empty());
        proof {
            reveal_strlit("<ul>\n");
        }
        while i < names.len()
            invariant
                i <= names.len(),
                nv == names.deep_view(),
                hp@ == handler_path@,
                body@ == "<ul>\n"@ + listing_lines(handler_path@, rel@, nv.take(i as int)),
            decreases names.len() - i,
        {
            assert(nv.take(i + 1).drop_last() =~= nv.take(i as int));
            assert(nv[i as int] == names@[i as int]@);
            let mut href = "/".to_string();
            push_path_component(&mut href, &hp);
            push_path_component(&mut href, &rel);
            push_path_component(&mut href, &names[i]);
            push_str(&mut body, "  <li><a href='");
            push_str(&mut body, href.as_str());
            push_str(&mut body, "'>");
            push_str(&mut body, names[i].as_str());
            push_str(&mut body, "</a></li>\n");
            assert(href@ == entry_href(handler_path@, rel@, nv[i as int]));
            assert(body@ =~= "<ul>\n"@ + (listing_lines(handler_path@, rel@, nv.take(i as int))
                + listing_line(href@, nv[i as int])));
            i = i + 1;
        }
        assert(nv.take(names.len() as int) =~= nv);
        push_str(&mut body, "<ul>\n");
        file_response(crate::status::OK, "text/html", body.as_str())
    }
}


/// The entry of a table for a key that only its `i`-th entry has.
pub proof fn lemma_table_get_at(t: Seq<(Seq<char>, Seq<char>)>, k: Seq<char>, i: int)
    requires
        0 <= i < t.len(),
        t[i].0 == k,
        forall|j: int| 0 <= j < i ==> t[j].0 != k,
    ensures
        table_get(t, k) == Some(t[i].1),
    decreases i,
{
    if i > 0 {
        assert(t[0].0 != k);
        lemma_table_get_at(t.drop_first(), k, i - 1);
    }
}

/// A key that no entry of a table has is not found.
pub proof fn lemma_table_get_none(t: Seq<(Seq<char>, Seq<char>)>, k: Seq<char>)
    requires
        forall|j: int| 0 <= j < t.len() ==> t[j].0 != k,
    ensures
        table_get(t, k) is None,
    decreases t.len(),
{
    if t.len() > 0 {
        assert(t[0].0 != k);
        lemma_table_get_none(t.drop_first(), k);
    }
}

/// The file handler serves each file by the type of its extension: `html` and `htm` as `text/html`, `txt` as `text/plain`, `png` as `image/png`, `jpg` and `jpeg` as `image/jpeg`; a path without an extension as `text/plain`, and any other extension as `txt`.
pub proof fn file_content_types(path: Seq<char>, ext: Seq<char>)
    ensures
        table_get(file_types(), "html"@) == Some("text/html"@),
        table_get(file_types(), "htm"@) == Some("text/html"@),
        table_get(file_types(), "txt"@) == Some("text/plain"@),
        table_get(file_types(), "png"@) == Some("image/png"@),
        table_get(file_types(), "jpg"@) == Some("image/jpeg"@),
        table_get(file_types(), "jpeg"@) == Some("image/jpeg"@),
        path_extension(path) == Some("html"@) ==> content_type_in(file_types(), path) == "text/html"@,
        path_extension(path) == Some("htm"@) ==> content_type_in(file_types(), path) == "text/html"@,
        path_extension(path) == Some("txt"@) ==> content_type_in(file_types(), path) == "text/plain"@,
        path_extension(path) == Some("png"@) ==> content_type_in(file_types(), path) == "image/png"@,
        path_extension(path) == Some("jpg"@) ==> content_type_in(file_types(), path) == "image/jpeg"@,
        path_extension(path) == Some("jpeg"@) ==> content_type_in(file_types(), path) == "image/jpeg"@,
        path_extension(path) is None ==> content_type_in(file_types(), path) == "text/plain"@,
        ext != "html"@ && ext != "htm"@ && ext != "txt"@ && ext != "png"@ && ext != "jpg"@ && ext != "jpeg"@ ==> table_get(file_types(), ext) is None,
        path_extension(path) == Some(ext) && ext != "html"@ && ext != "htm"@ && ext != "txt"@ && ext != "png"@ && ext != "jpg"@ && ext != "jpeg"@ ==> content_type_in(file_types(), path) == "txt"@,
{
    reveal_strlit("html");
    reveal_strlit("htm");
    reveal_strlit("txt");
    reveal_strlit("png");
    reveal_strlit("jpg");
    reveal_strlit("jpeg");
    reveal_strlit("text/html");
    reveal_strlit("text/plain");
    reveal_strlit("image/png");
    reveal_strlit("image/jpeg");
    assert("html"@.len() != "htm"@.len());
    assert("html"@.len() != "txt"@.len());
    assert("html"@.len() != "png"@.len());
    assert("html"@.len() != "jpg"@.len());
    assert("html"@[0] != "jpeg"@[0]);
    assert("htm"@[0] != "txt"@[0]);
    assert("htm"@[0] != "png"@[0]);
    assert("htm"@[0] != "jpg"@[0]);
    assert("htm"@.len() != "jpeg"@.len());
    assert("txt"@[0] != "png"@[0]);
    assert("txt"@[0] != "jpg"@[0]);
    assert("txt"@.len() != "jpeg"@.len());
    assert("png"@[0] != "jpg"@[0]);
    assert("png"@.len() != "jpeg"@.len());
    assert("jpg"@.len() != "jpeg"@.len());
    let t = file_types();
    lemma_table_get_at(t, "html"@, 0);
    lemma_table_get_at(t, "htm"@, 1);
    lemma_table_get_at(t, "txt"@, 2);
    lemma_table_get_at(t, "png"@, 3);
    lemma_table_get_at(t, "jpg"@, 4);
    lemma_table_get_at(t, "jpeg"@, 5);
    if ext != "html"@ && ext != "htm"@ && ext != "txt"@ && ext != "png"@ && ext != "jpg"@ && ext != "jpeg"@ {
        lemma_table_get_none(t, ext);
    }
}


} // verus!
