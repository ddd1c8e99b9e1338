//! Start-up options for the service around the library.
//!
//! Only the listen address lives here; the limiter capacities and
//! windows are supplied programmatically at gate construction.

use vstd::prelude::*;

verus! {

/// Options the service is started with.
pub struct Opts {
    /// The socket address the HTTP server listens on.
    pub listen: String,
}

impl Opts {
    /// Options with an explicit listen address.
    pub fn new(listen: String) -> (r: Self)
        ensures
            r.listen == listen,
    {
        Opts { listen }
    }
}

impl Default for Opts {
    /// The conventional local listen address.
    fn default() -> (r: Self)
        ensures
            r.listen@ == "[::1]:3000"@,
    {
        Opts { listen: "[::1]:3000".to_owned() }
    }
}

} // verus!
