//! Connection identifiers and the per-connection keep-alive state.
use vstd::prelude::*;

use crate::lbconfig::{is_alphanumeric, random_string};

verus! {

/// The identifier of a connection.
#[derive(Debug, Clone, PartialEq, Eq, Hash)]
pub struct ConnId(pub String);

impl ConnId {
    /// A fresh identifier of sixteen random letters and digits.
    pub fn random() -> (id: ConnId)
        ensures
            id.0@.len() == 16,
            forall|i: int| 0 <= i < 16 ==> is_alphanumeric(#[trigger] id.0@[i]),
    {
        ConnId(random_string(16))
    }

    pub fn as_str(&self) -> (s: &str)
        ensures
            s@ == self.0@,
    {
        self.0.as_str()
    }
}

/// The keep-alive settings of a connection and the number of requests it
/// has carried. The timeout is in seconds.
#[derive(Debug)]
pub struct ConnState {
    pub keepalive_timeout: Option<u64>,
    pub keepalive_max: Option<usize>,
    pub request_count: usize,
}

impl ConnState {
    /// No keep-alive settings and no request yet.
    pub fn new() -> (s: ConnState)
        ensures
            s.keepalive_timeout is None,
            s.keepalive_max is None,
            s.request_count == 0,
    {
        ConnState { keepalive_timeout: None, keepalive_max: None, request_count: 0 }
    }

    pub fn set_keepalive_timeout(&mut self, secs: u64)
        ensures
            final(self).keepalive_timeout == Some(secs),
            final(self).keepalive_max == old(self).keepalive_max,
            final(self).request_count == old(self).request_count,
    {
        self.keepalive_timeout = Some(secs);
    }

    pub fn set_keepalive_max(&mut self, max: usize)
        ensures
            final(self).keepalive_max == Some(max),
            final(self).keepalive_timeout == old(self).keepalive_timeout,
            final(self).request_count == old(self).request_count,
    {
        self.keepalive_max = Some(max);
    }

    /// Counts one more request; true when that exceeds the keep-alive
    /// maximum, so that the connection is to be closed.
    pub fn inc_request_count(&mut self) -> (over: bool)
        requires
            old(self).request_count < usize::MAX,
        ensures
            final(self).request_count == old(self).request_count + 1,
            final(self).keepalive_timeout == old(self).keepalive_timeout,
            final(self).keepalive_max == old(self).keepalive_max,
            over == (match old(self).keepalive_max {
                Some(max) => final(self).request_count > max,
                None => false,
            }),
    {
        self.request_count = self.request_count + 1;
        match self.keepalive_max {
            Some(max) => self.request_count > max,
            None => false,
        }
    }
}

} // verus!
