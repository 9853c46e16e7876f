//! What a client is configured with.

use vstd::prelude::*;
use vstd::string::*;

verus! {

/// The settings of a client: who plays, and where the server listens.
pub struct Settings {
    pub username: String,
    pub host: String,
    pub port: String,
}

impl Settings {
    /// The address to connect to: the host, a colon and the port.
    pub fn address(&self) -> (address: String)
        ensures
            address@ == self.host@ + ":"@ + self.port@,
    {
        let mut address = self.host.clone();
        address.append(":");
        address.append(self.port.as_str());
        address
    }
}

} // verus!
