//! Server settings.
use vstd::prelude::*;

verus! {

/// Server settings: the port to listen on.
pub struct Settings {
    port: u16,
}

impl Settings {
    pub closed spec fn spec_port(&self) -> u16 {
        self.port
    }

    /// The default settings: port 3001.
    pub fn new() -> (r: Settings)
        ensures
            r.spec_port() == 3001,
    {
        Settings { port: 3001 }
    }

    pub fn port(&self) -> (r: u16)
        ensures
            r == self.spec_port(),
    {
        self.port
    }
}

} // verus!
