//! The server's configuration.

use vstd::prelude::*;

verus! {

/// Where the server listens.
pub struct Tcp {
    pub host: String,
    pub port: u16,
}

/// The server's configuration.
pub struct Config {
    pub tcp: Tcp,
}

impl Config {
    /// The address to listen on: the host and the port.
    pub fn socket_addr(&self) -> (r: (&str, u16))
        ensures
            r.0@ == self.tcp.host@,
            r.1 == self.tcp.port,
    {
        (self.tcp.host.as_str(), self.tcp.port)
    }
}

} // verus!
