//! How a server is reached.

use vstd::prelude::*;
use vstd::string::StringExecFns;

verus! {

#[derive(Clone, Debug)]
pub struct ClientConfig {
    pub cluster: bool,
    pub address: String,
    pub username: String,
    pub password: String,
    pub tls: bool,
    pub timeout: u64,
}

/// The address that a client connects to: scheme, user, password and host,
/// and with TLS the fragment that switches the check of certificates off.
pub open spec fn url_of(config: ClientConfig) -> Seq<char> {
    if config.tls {
        "rediss://"@ + config.username@ + ":"@ + config.password@ + "@"@ + config.address@
            + "/#insecure"@
    } else {
        "redis://"@ + config.username@ + ":"@ + config.password@ + "@"@ + config.address@
    }
}

impl ClientConfig {
    /// The address that a client connects to.
    pub fn connection_url(&self) -> (url: String)
        ensures
            url@ == url_of(*self),
    {
        let mut url = if self.tls {
            String::from_str("rediss://")
        } else {
            String::from_str("redis://")
        };
        url.append(self.username.as_str());
        url.append(":");
        url.append(self.password.as_str());
        url.append("@");
        url.append(self.address.as_str());
        if self.tls {
            url.append("/#insecure");
        }
        url
    }
}

} // verus!
