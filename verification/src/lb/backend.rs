//! A backend reached over HTTP.
use vstd::prelude::*;

use crate::client::Client;
use crate::text::Text;

verus! {

/// A backend at a `host:port` address, optionally behind TLS.
#[derive(Debug)]
pub struct HttpBackend {
    pub address: String,
    pub enable_tls: bool,
    pub tls_server_name: String,
}

impl HttpBackend {
    pub fn new<T: Text>(address: T) -> (b: HttpBackend)
        ensures
            b.address@ == address.text(),
            !b.enable_tls,
            b.tls_server_name@ == Seq::<char>::empty(),
    {
        HttpBackend { address: address.to_text(), enable_tls: false, tls_server_name: String::new() }
    }

    /// Turns TLS on, checking the given server name.
    pub fn enable_tls<T: Text>(&mut self, server_name: T) -> (r: &mut HttpBackend)
        ensures
            r.enable_tls,
            r.tls_server_name@ == server_name.text(),
            r.address == old(self).address,
            *final(self) == *final(r),
    {
        self.enable_tls = true;
        self.tls_server_name = server_name.to_text();
        self
    }

    /// The client settings for a new connection to this backend.
    pub fn client(&self) -> (c: Client)
        ensures
            c.address@ == self.address@,
            c.enable_tls == self.enable_tls,
            self.enable_tls ==> c.tls_server_name@ == self.tls_server_name@,
            !self.enable_tls ==> c.tls_server_name@ == Seq::<char>::empty(),
    {
        let mut c = Client::new(self.address.as_str());
        if self.enable_tls {
            c.enable_tls(self.tls_server_name.as_str());
        }
        c
    }
}

} // verus!
