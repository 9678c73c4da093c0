//! A handler that redirects every request to a fixed location.
use vstd::prelude::*;

use crate::body::BodyModel;
use crate::headers::put;
use crate::response::{response_text, Response};
use crate::text::{lowercase, trim, Text};

verus! {

/// Redirects to a location.
pub struct Redirect {
    location: String,
}

impl Redirect {
    pub closed spec fn location(&self) -> Seq<char> {
        self.location@
    }

    pub fn new<T: Text>(location: T) -> (r: Redirect)
        ensures
            r.location() == location.text(),
    {
        Redirect { location: location.to_text() }
    }

    /// The response this handler writes: `301 Moved Permanently` with a
    /// `Location` header and no body.
    pub fn response_text(&self) -> (t: String)
        ensures
            t@ == response_text(
                (301u16, "Moved Permanently"@),
                put(Seq::empty(), lowercase("Location"@), seq![trim(self.location())]),
                BodyModel::Full { content: Seq::empty(), expected: 0 },
            ),
    {
        let mut response = Response::new(crate::status::from(crate::status::MOVED_PERMANENTLY));
        response.headers.set("Location", self.location.as_str());
        assert(response@.headers =~= put(
            Seq::empty(),
            lowercase("Location"@),
            seq![trim(self.location())],
        ));
        response.serialize()
    }
}

} // verus!
