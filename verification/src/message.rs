//! A parsed HTTP message: a request, a response, or nothing yet.
use vstd::prelude::*;

use crate::body::Body;
use crate::headers::Headers;
use crate::request::{Request, RequestView};
use crate::response::{Response, ResponseView};

verus! {

pub enum MessageView {
    Empty,
    Request(RequestView),
    Response(ResponseView),
}

#[derive(Debug)]
pub enum Message {
    Empty,
    Request(Request),
    Response(Response),
}

impl Message {
    pub open spec fn view(&self) -> MessageView {
        match self {
            Message::Empty => MessageView::Empty,
            Message::Request(r) => MessageView::Request(r@),
            Message::Response(r) => MessageView::Response(r@),
        }
    }

    /// The request held; the message must be a request.
    pub fn request(&self) -> (r: &Request)
        requires
            self is Request,
        ensures
            self@ == MessageView::Request(r@),
    {
        match self {
            Message::Request(r) => r,
            _ => {
                proof {
                    assert(false);
                }
                unreached()
            },
        }
    }

    /// The request held, for changing it; the message must be a request.
    pub fn request_mut(&mut self) -> (r: &mut Request)
        requires
            *old(self) is Request,
        ensures
            old(self)@ == MessageView::Request(r@),
            final(self)@ == MessageView::Request(final(r)@),
    {
        match self {
            Message::Request(r) => r,
            _ => {
                proof {
                    assert(false);
                }
                unreached()
            },
        }
    }

    /// The request held, for changing it; the message must be a request.
    pub fn mut_request(&mut self) -> (r: &mut Request)
        requires
            *old(self) is Request,
        ensures
            old(self)@ == MessageView::Request(r@),
            final(self)@ == MessageView::Request(final(r)@),
    {
        self.request_mut()
    }

    /// The response held; the message must be a response.
    pub fn response(&self) -> (r: &Response)
        requires
            self is Response,
        ensures
            self@ == MessageView::Response(r@),
    {
        match self {
            Message::Response(r) => r,
            _ => {
                proof {
                    assert(false);
                }
                unreached()
            },
        }
    }

    /// The response held, for changing it; the message must be a response.
    pub fn response_mut(&mut self) -> (r: &mut Response)
        requires
            *old(self) is Response,
        ensures
            old(self)@ == MessageView::Response(r@),
            final(self)@ == MessageView::Response(final(r)@),
    {
        match self {
            Message::Response(r) => r,
            _ => {
                proof {
                    assert(false);
                }
                unreached()
            },
        }
    }

    /// The response held, for changing it; the message must be a response.
    pub fn mut_response(&mut self) -> (r: &mut Response)
        requires
            *old(self) is Response,
        ensures
            old(self)@ == MessageView::Response(r@),
            final(self)@ == MessageView::Response(final(r)@),
    {
        self.response_mut()
    }

    /// The body of the request or response held.
    pub fn body_mut(&mut self) -> (r: &mut Body)
        requires
            !(*old(self) is Empty),
        ensures
            match old(self)@ {
                MessageView::Request(q) => r@ == q.body && final(self)@ == MessageView::Request(
                    RequestView { body: final(r)@, ..q },
                ),
                MessageView::Response(q) => r@ == q.body && final(self)@ == MessageView::Response(
                    ResponseView { body: final(r)@, ..q },
                ),
                MessageView::Empty => false,
            },
    {
        match self {
            Message::Request(r) => r.body_mut(),
            Message::Response(r) => &mut r.body,
            Message::Empty => {
                proof {
                    assert(false);
                }
                unreached()
            },
        }
    }

    /// The headers of the request or response held.
    pub fn headers_mut(&mut self) -> (r: &mut Headers)
        requires
            !(*old(self) is Empty),
        ensures
            match old(self)@ {
                MessageView::Request(q) => r@ == q.headers && final(self)@ == MessageView::Request(
                    RequestView { headers: final(r)@, ..q },
                ),
                MessageView::Response(q) => r@ == q.headers && final(self)@
                    == MessageView::Response(ResponseView { headers: final(r)@, ..q }),
                MessageView::Empty => false,
            },
    {
        match self {
            Message::Request(r) => r.headers_mut(),
            Message::Response(r) => &mut r.headers,
            Message::Empty => {
                proof {
                    assert(false);
                }
                unreached()
            },
        }
    }
}

impl Clone for Message {
    fn clone(&self) -> (r: Self)
        ensures
            r@ == self@,
    {
        match self {
            Message::Empty => Message::Empty,
            Message::Request(q) => Message::Request(q.clone()),
            Message::Response(q) => Message::Response(q.clone()),
        }
    }
}

} // verus!
