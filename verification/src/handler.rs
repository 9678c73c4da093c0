//! What a handler returns: a follow-up action, or an error that leads to an
//! immediate response.
use vstd::prelude::*;

use crate::response::Response;
use crate::status::Status;
use crate::text::{decimal, push_number, push_str};

verus! {

/// Handlers can return a follow-up action. Actions may lead to another
/// handler, a redirect, or an immediate response.
#[derive(Debug)]
pub enum Action {
    /// Continue to the next handler in the stack.
    Next,
    /// Respond immediately with the included response.
    Response(Response),
    /// Redirect to a new location; the next handler is not called.
    Redirect(String),
    /// This session is complete; the next handler is not called.
    Done,
}

/// A failed handler returns an error.
#[derive(Debug)]
pub enum Error {
    /// A 500 Internal Server Error with a message.
    Failed(String),
    /// A status code with its standard message.
    Status(Status),
}

impl Error {
    /// The error as a line of text.
    pub fn message(&self) -> (s: String)
        ensures
            s@ == (match self {
                Error::Failed(msg) => "Handler error: Failed: "@ + msg@,
                Error::Status(st) => "Handler error: Failed("@ + decimal(st.code as nat) + "): "@
                    + st.text@,
            }),
    {
        let mut s = String::new();
        push_str(&mut s, "Handler error: ");
        match self {
            Error::Failed(msg) => {
                push_str(&mut s, "Failed: ");
                push_str(&mut s, msg.as_str());
            },
            Error::Status(st) => {
                push_str(&mut s, "Failed(");
                push_number(&mut s, st.code as u64, 10);
                push_str(&mut s, "): ");
                push_str(&mut s, st.text.as_str());
            },
        }
        proof {
            reveal_strlit("Handler error: ");
            reveal_strlit("Failed: ");
            reveal_strlit("Handler error: Failed: ");
            reveal_strlit("Failed(");
            reveal_strlit("Handler error: Failed(");
        }
        s
    }
}

} // verus!
