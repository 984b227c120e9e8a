//! Settings of the quake server: where it listens and how often it asks
//! Twitter for new quakes.

use vstd::prelude::*;

verus! {

/// Seconds between two requests for new quake tweets: 300, or 10 in test mode.
pub fn update_interval_secs(is_test: bool) -> (s: u64)
    ensures
        s == (if is_test { 10u64 } else { 300u64 }),
{
    if !is_test {
        300
    } else {
        10
    }
}

/// Seconds before the first request for new quake tweets.
pub fn first_update_delay_secs() -> (s: u64)
    ensures
        s == 60,
{
    60
}

/// The address to listen on: `HOST` (else `127.0.0.1`), a colon, and `PORT` (else `8080`).
pub fn bind_address(host: Option<String>, port: Option<String>) -> (a: String)
    ensures
        a@ == match host {
            Some(h) => h@,
            None => "127.0.0.1"@,
        } + ":"@ + match port {
            Some(p) => p@,
            None => "8080"@,
        },
{
    let mut a = match host {
        Some(h) => h,
        None => String::from_str("127.0.0.1"),
    };
    a.append(":");
    match port {
        Some(p) => a.append(p.as_str()),
        None => a.append("8080"),
    }
    a
}

/// The log filter to use: the one set, else the server's default.
pub fn log_filter(current: Option<String>) -> (f: String)
    ensures
        f@ == match current {
            Some(c) => c@,
            None => "actix_server=info,actix_web=info,quakes_server=info"@,
        },
{
    match current {
        Some(c) => c,
        None => String::from_str("actix_server=info,actix_web=info,quakes_server=info"),
    }
}

} // verus!
