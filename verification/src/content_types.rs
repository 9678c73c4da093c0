//! Content types by file extension.
use vstd::prelude::*;

use crate::text::str_eq;

verus! {

/// The content type served for a file extension, when it is a known one.
pub open spec fn by_ext(ext: Seq<char>) -> Option<Seq<char>> {
    if ext == "html"@ || ext == "htm"@ {
        Some("text/html"@)
    } else if ext == "txt"@ {
        Some("text/plain"@)
    } else if ext == "js"@ {
        Some("text/javascript"@)
    } else if ext == "png"@ {
        Some("image/png"@)
    } else if ext == "jpg"@ || ext == "jpeg"@ {
        Some("image/jpeg"@)
    } else if ext == "svg"@ {
        Some("image/svg+xml"@)
    } else {
        None
    }
}

/// Looks a content type up by file extension.
pub fn content_type_by_ext(ext: &str) -> (r: Option<&'static str>)
    ensures
        r matches Some(t) ==> by_ext(ext@) == Some(t@),
        r is None ==> by_ext(ext@) is None,
{
    if str_eq(ext, "html") || str_eq(ext, "htm") {
        Some("text/html")
    } else if str_eq(ext, "txt") {
        Some("text/plain")
    } else if str_eq(ext, "js") {
        Some("text/javascript")
    } else if str_eq(ext, "png") {
        Some("image/png")
    } else if str_eq(ext, "jpg") || str_eq(ext, "jpeg") {
        Some("image/jpeg")
    } else if str_eq(ext, "svg") {
        Some("image/svg+xml")
    } else {
        None
    }
}


/// The content type of each known extension is its MIME type: `html` and
/// `htm` are `text/html`, `txt` is `text/plain`, `js` is `text/javascript`,
/// `png` is `image/png`, `jpg` and `jpeg` are `image/jpeg`, `svg` is
/// `image/svg+xml`; no other extension has one.
pub proof fn content_types_by_ext(ext: Seq<char>)
    ensures
        by_ext("html"@) == Some("text/html"@),
        by_ext("htm"@) == Some("text/html"@),
        by_ext("txt"@) == Some("text/plain"@),
        by_ext("js"@) == Some("text/javascript"@),
        by_ext("png"@) == Some("image/png"@),
        by_ext("jpg"@) == Some("image/jpeg"@),
        by_ext("jpeg"@) == Some("image/jpeg"@),
        by_ext("svg"@) == Some("image/svg+xml"@),
        ext != "html"@ && ext != "htm"@ && ext != "txt"@ && ext != "js"@ && ext != "png"@ && ext != "jpg"@ && ext != "jpeg"@ && ext != "svg"@ ==> by_ext(ext) is None,
{
    reveal_strlit("html");
    reveal_strlit("htm");
    reveal_strlit("txt");
    reveal_strlit("js");
    reveal_strlit("png");
    reveal_strlit("jpg");
    reveal_strlit("jpeg");
    reveal_strlit("svg");
    reveal_strlit("text/html");
    reveal_strlit("text/plain");
    reveal_strlit("text/javascript");
    reveal_strlit("image/png");
    reveal_strlit("image/jpeg");
    reveal_strlit("image/svg+xml");
    assert("html"@.len() != "htm"@.len());
    assert("html"@.len() != "txt"@.len());
    assert("html"@.len() != "js"@.len());
    assert("html"@.len() != "png"@.len());
    assert("html"@.len() != "jpg"@.len());
    assert("html"@[0] != "jpeg"@[0]);
    assert("html"@.len() != "svg"@.len());
    assert("htm"@[0] != "txt"@[0]);
    assert("htm"@.len() != "js"@.len());
    assert("htm"@[0] != "png"@[0]);
    assert("htm"@[0] != "jpg"@[0]);
    assert("htm"@.len() != "jpeg"@.len());
    assert("htm"@[0] != "svg"@[0]);
    assert("txt"@.len() != "js"@.len());
    assert("txt"@[0] != "png"@[0]);
    assert("txt"@[0] != "jpg"@[0]);
    assert("txt"@.len() != "jpeg"@.len());
    assert("txt"@[0] != "svg"@[0]);
    assert("js"@.len() != "png"@.len());
    assert("js"@.len() != "jpg"@.len());
    assert("js"@.len() != "jpeg"@.len());
    assert("js"@.len() != "svg"@.len());
    assert("png"@[0] != "jpg"@[0]);
    assert("png"@.len() != "jpeg"@.len());
    assert("png"@[0] != "svg"@[0]);
    assert("jpg"@.len() != "jpeg"@.len());
    assert("jpg"@[0] != "svg"@[0]);
    assert("jpeg"@.len() != "svg"@.len());
}

} // verus!
