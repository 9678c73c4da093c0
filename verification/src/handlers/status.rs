//! A handler that answers every request with a fixed status and body.
use vstd::prelude::*;

use crate::headers::{EntriesView, Headers};
use crate::parser::text_body;
use crate::response::{response_text, Response};
use crate::text::Text;

verus! {

/// Answers with a status, a body and headers.
pub struct Status {
    status: crate::status::Status,
    body: String,
    headers: Headers,
}

impl Status {
    pub closed spec fn status(&self) -> (u16, Seq<char>) {
        self.status@
    }

    pub closed spec fn body(&self) -> Seq<char> {
        self.body@
    }

    pub closed spec fn headers(&self) -> EntriesView {
        self.headers@
    }

    pub fn new<T: Text>(status: crate::status::Status, message: T) -> (s: Status)
        ensures
            s.status() == status@,
            s.body() == message.text(),
            s.headers() == Seq::<(Seq<char>, Seq<Seq<char>>)>::empty(),
    {
        Status { status, body: message.to_text(), headers: Headers::new() }
    }

    /// The response this handler writes.
    pub fn response_text(&self) -> (t: String)
        ensures
            t@ == response_text(self.status(), self.headers(), text_body(self.body())),
    {
        let mut response = Response::new(self.status.clone());
        response.headers = self.headers.clone();
        response.set_body(self.body.clone());
        response.serialize()
    }
}

/// Answers `404 Not Found` with a short HTML page.
#[allow(non_snake_case)]
pub fn NotFoundHandler() -> (s: Status)
    ensures
        s.status() == (404u16, "Not Found"@),
        s.body() == "<html>404 Not Found</html>"@,
        s.headers() == Seq::<(Seq<char>, Seq<Seq<char>>)>::empty(),
{
    Status::new(crate::status::from(crate::status::NOT_FOUND), "<html>404 Not Found</html>")
}

} // verus!
