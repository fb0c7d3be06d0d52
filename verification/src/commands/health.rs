//! `health`: where four-letter-word commands are sent, and their output.
use vstd::prelude::*;
use crate::output::HealthResult;
use crate::text::{occurs_in, str_contains};

verus! {

/// The address to connect to: the host as given when it names a port
/// (holds a `:`), otherwise the host on ZooKeeper's port 2181.
pub open spec fn spec_health_address(host: Seq<char>) -> Seq<char> {
    if occurs_in(host, seq![':']) {
        host
    } else {
        host + ":2181"@
    }
}

/// The address a four-letter word is sent to.
pub fn health_address(host: &str) -> (r: String)
    ensures
        r@ == spec_health_address(host@),
{
    let has_port = str_contains(host, ":");
    proof {
        reveal_strlit(":");
        assert(":"@ =~= seq![':']);
    }
    if has_port {
        host.to_owned()
    } else {
        let mut s = host.to_owned();
        s.append(":2181");
        s
    }
}

/// The result of sending `command` to `host`, which replied `output`.
pub fn health_result(command: &str, host: &str, output: String) -> (r: HealthResult)
    ensures
        r.command@ == command@,
        r.host@ == host@,
        r.output == output,
{
    HealthResult { command: command.to_owned(), host: host.to_owned(), output }
}

/// Prints the reply as the server sent it.
pub fn format_human(r: &HealthResult) -> (out: String)
    ensures
        out@ == r.output@,
{
    r.output.clone()
}

} // verus!
