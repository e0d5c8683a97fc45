//! Log filtering for test clients.
use vstd::prelude::*;

verus! {

/// The log filter directive test clients install: the client library at
/// `info`. The caller hands it to its subscriber.
pub fn setup_log() -> (r: String)
    ensures
        r@ == "client_api=info"@,
{
    "client_api=info".to_owned()
}

} // verus!
