use vstd::prelude::*;

verus! {

/// A status code together with its standard reason phrase.
pub type Code<'a> = (u16, &'a str);

pub const OK: Code<'static> = (200, "OK");

pub const MOVED_PERMANENTLY: Code<'static> = (301, "Moved Permanently");

pub const UNAUTHORIZED: Code<'static> = (401, "Unauthorized");

pub const NOT_FOUND: Code<'static> = (404, "Not Found");

pub const SERVER_ERROR: Code<'static> = (500, "Server Error");

/// The status line of a response: a numeric code and its reason phrase.
#[derive(Debug, PartialEq, Eq)]
pub struct Status {
    pub code: u16,
    pub text: String,
}

impl Clone for Status {
    fn clone(&self) -> (r: Self)
        ensures
            r@ == self@,
    {
        Status { code: self.code, text: self.text.clone() }
    }
}

/// Builds a `Status` from a code and reason phrase.
pub fn from(c: Code) -> (s: Status)
    ensures
        s.code == c.0,
        s.text@ == c.1@,
{
    Status { code: c.0, text: c.1.to_string() }
}

impl Status {
    pub open spec fn view(&self) -> (u16, Seq<char>) {
        (self.code, self.text@)
    }

    pub fn from(c: Code) -> (s: Status)
        ensures
            s.code == c.0,
            s.text@ == c.1@,
    {
        from(c)
    }
}


/// Each status is its standard code with its standard reason phrase.
pub proof fn status_codes()
    ensures
        OK.0 == 200 && OK.1@ == "OK"@,
        MOVED_PERMANENTLY.0 == 301 && MOVED_PERMANENTLY.1@ == "Moved Permanently"@,
        UNAUTHORIZED.0 == 401 && UNAUTHORIZED.1@ == "Unauthorized"@,
        NOT_FOUND.0 == 404 && NOT_FOUND.1@ == "Not Found"@,
        SERVER_ERROR.0 == 500 && SERVER_ERROR.1@ == "Server Error"@,
{
}

} // verus!
