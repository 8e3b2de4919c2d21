//! What is decided once, at startup, from the configuration.

use vstd::prelude::*;
use vstd::string::StringExecFns;

verus! {

/// The address that the gateway listens on: every IPv4 address where only IPv4 is
/// asked for; else every IPv6 address where only IPv6 is asked for; else the
/// configured address. The port follows after a colon.
pub open spec fn listener(address: Seq<char>, port: Seq<char>, ipv4_only: bool, ipv6_only: bool)
    -> Seq<char> {
    if ipv4_only {
        "0.0.0.0:"@ + port
    } else if ipv6_only {
        "[::]:"@ + port
    } else {
        address + ":"@ + port
    }
}

/// The address that the gateway listens on.
pub fn listen_address(address: &str, port: &str, ipv4_only: bool, ipv6_only: bool) -> (r: String)
    ensures
        r@ == listener(address@, port@, ipv4_only, ipv6_only),
{
    let mut r = if ipv4_only {
        String::from_str("0.0.0.0:")
    } else if ipv6_only {
        String::from_str("[::]:")
    } else {
        let mut host = String::from_str(address);
        host.append(":");
        host
    };
    r.append(port);
    r
}

/// What crawlers are told: to stay away from everything where indexing is switched
/// off, and from the pages of users otherwise.
pub fn robots_txt(disable_indexing: bool) -> (r: &'static str)
    ensures
        r@ == if disable_indexing {
            "User-agent: *\nDisallow: /"@
        } else {
            "User-agent: *\nDisallow: /u/\nDisallow: /user/"@
        },
{
    if disable_indexing {
        "User-agent: *\nDisallow: /"
    } else {
        "User-agent: *\nDisallow: /u/\nDisallow: /user/"
    }
}

/// What is logged when the probe of the upstream's rate limit fails at startup.
pub open spec fn rate_limit_notice(error: Seq<char>) -> Seq<char> {
    "Rate limit check failed: "@ + error + "\nThis may cause issues with the rate limit."@
        + "\nPlease report this error with the above information."@
        + "\nhttps://github.com/redlib-org/redlib/issues/new?assignees=sigaloid&labels=bug&title=%F0%9F%90%9B+Bug+Report%3A+Rate+limit+mismatch"@
}

/// What is logged when the probe of the upstream's rate limit fails at startup. The
/// failure is a warning: startup goes on.
pub fn rate_limit_warning(error: &str) -> (message: String)
    ensures
        message@ == rate_limit_notice(error@),
{
    let mut message = String::from_str("Rate limit check failed: ");
    message.append(error);
    message.append("\nThis may cause issues with the rate limit.");
    message.append("\nPlease report this error with the above information.");
    message.append(
        "\nhttps://github.com/redlib-org/redlib/issues/new?assignees=sigaloid&labels=bug&title=%F0%9F%90%9B+Bug+Report%3A+Rate+limit+mismatch",
    );
    message
}

/// For how many seconds a fetched feed is served before it is fetched again.
pub const FEED_TTL: u64 = 600;

/// Where the feed of recent changes is fetched from.
pub fn commits_feed_uri() -> (r: &'static str)
    ensures
        r@ == "https://github.com/redlib-org/redlib/commits/main.atom"@,
{
    "https://github.com/redlib-org/redlib/commits/main.atom"
}

/// Where the list of public instances is fetched from.
pub fn instances_list_uri() -> (r: &'static str)
    ensures
        r@ == "https://raw.githubusercontent.com/redlib-org/redlib-instances/refs/heads/main/instances.json"@,
{
    "https://raw.githubusercontent.com/redlib-org/redlib-instances/refs/heads/main/instances.json"
}

} // verus!
