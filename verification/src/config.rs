//! Configuration values with their defaults. Reading the process
//! environment happens outside the library; these functions turn what
//! was (or was not) found there into the values the bot uses.

use vstd::prelude::*;

verus! {

/// The connection URI for a configured database host, or the local
/// default.
pub open spec fn redis_uri_spec(host: Option<Seq<char>>) -> Seq<char> {
    match host {
        Some(h) => "redis://"@ + h + "/"@,
        None => "redis://127.0.0.1/"@,
    }
}

/// Builds `redis://<host>/`, falling back to `127.0.0.1`.
pub fn redis_uri(host: Option<&str>) -> (r: String)
    ensures
        r@ == redis_uri_spec(match host {
            Some(h) => Some(h@),
            None => None,
        }),
{
    match host {
        Some(h) => {
            let mut s = String::from_str("redis://");
            s.append(h);
            s.append("/");
            s
        },
        None => {
            proof {
                reveal_strlit("redis://");
                reveal_strlit("127.0.0.1");
                reveal_strlit("/");
                reveal_strlit("redis://127.0.0.1/");
                assert("redis://127.0.0.1/"@ =~= "redis://"@ + "127.0.0.1"@ + "/"@);
            }
            let mut s = String::from_str("redis://");
            s.append("127.0.0.1");
            s.append("/");
            s
        },
    }
}

/// The configured public hostname, or the local default.
pub fn hostname(value: Option<String>) -> (r: String)
    ensures
        r@ == match value {
            Some(v) => v@,
            None => "http://localhost:8000"@,
        },
{
    match value {
        Some(v) => v,
        None => String::from_str("http://localhost:8000"),
    }
}

/// The configured OAuth client id, or the test default.
pub fn client_id(value: Option<String>) -> (r: String)
    ensures
        r@ == match value {
            Some(v) => v@,
            None => "liro-test-bot"@,
        },
{
    match value {
        Some(v) => v,
        None => String::from_str("liro-test-bot"),
    }
}

} // verus!
