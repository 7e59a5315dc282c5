//! Which SpacetimeDB server the page talks to.

use vstd::prelude::*;

verus! {

/// Whether a page host is the developer's own machine.
pub open spec fn is_local_host(hostname: Seq<char>) -> bool {
    hostname == "localhost"@ || hostname == "127.0.0.1"@
}

/// The server for a page served from `hostname`: the local server for
/// `localhost` and `127.0.0.1`, the hosted one otherwise.
pub fn spacetimedb_uri(hostname: &str) -> (r: String)
    ensures
        r@ == if is_local_host(hostname@) { "ws://127.0.0.1:3000"@ } else {
            "wss://maincloud.spacetimedb.com"@
        },
{
    let host: String = hostname.to_owned();
    let localhost: String = "localhost".to_owned();
    let loopback: String = "127.0.0.1".to_owned();
    if host == localhost || host == loopback {
        "ws://127.0.0.1:3000".to_owned()
    } else {
        "wss://maincloud.spacetimedb.com".to_owned()
    }
}

} // verus!
