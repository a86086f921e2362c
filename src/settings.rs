//! Where the browser-automation endpoint listens.
use vstd::prelude::*;
use crate::text::{decimal_string, push_decimal, push_str};

verus! {

/// Where the browser-automation endpoint listens.
#[derive(Debug, Clone, PartialEq, Eq)]
pub struct WebDriverSettings {
    pub host: String,
    pub port: u16,
}

impl Default for WebDriverSettings {
    /// The local endpoint on port 9515.
    fn default() -> (r: Self)
        ensures
            r.host@ == "127.0.0.1"@,
            r.port == 9515,
    {
        WebDriverSettings { host: String::from_str("127.0.0.1"), port: 9515 }
    }
}

/// `http://host:port`.
pub open spec fn connection_url_of(host: Seq<char>, port: u16) -> Seq<char> {
    "http://"@ + host + ":"@ + decimal_string(port as nat)
}

impl WebDriverSettings {
    /// The address to connect to.
    pub fn connection_url(self) -> (r: String)
        ensures
            r@ == connection_url_of(self.host@, self.port),
    {
        let mut out = String::from_str("http://");
        push_str(&mut out, self.host.as_str());
        push_str(&mut out, ":");
        push_decimal(&mut out, self.port as u64);
        out
    }
}

} // verus!
