//! Connection parameters of the time-series server.

use vstd::prelude::*;

verus! {

/// Where the server is, and as whom to talk to it.
#[derive(Clone, Debug, PartialEq, Eq)]
pub struct PyEngine {
    pub host: String,
    pub token: String,
    pub org_id: String,
}

/// Bundles the three connection parameters, each kept as given.
pub fn create_engine(host: String, token: String, org_id: String) -> (engine: PyEngine)
    ensures
        engine.host == host,
        engine.token == token,
        engine.org_id == org_id,
{
    PyEngine { host, token, org_id }
}

} // verus!
