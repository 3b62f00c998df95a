//! The OAuth authorization redirect URL for the rating service. Pure
//! derivation: no network call.

use vstd::prelude::*;

verus! {

/// The authorization URL carrying a PKCE code challenge and an opaque
/// `state` value, sending the user back to `<hostname>/oauth/callback`.
pub open spec fn oauth_url_spec(
    code_challenge: Seq<char>,
    state: Seq<char>,
    hostname: Seq<char>,
    client_id: Seq<char>,
) -> Seq<char> {
    "https://lichess.org/oauth?response_type=code&redirect_uri="@ + hostname
        + "/oauth/callback&client_id="@ + client_id + "&code_challenge_method=S256&code_challenge="@
        + code_challenge + "&state="@ + state
}

/// Builds the authorization URL.
pub fn oauth_url(code_challenge: &str, state: &str, hostname: &str, client_id: &str) -> (r: String)
    ensures
        r@ == oauth_url_spec(code_challenge@, state@, hostname@, client_id@),
{
    let mut s = String::from_str("https://lichess.org/oauth?response_type=code&redirect_uri=");
    s.append(hostname);
    s.append("/oauth/callback&client_id=");
    s.append(client_id);
    s.append("&code_challenge_method=S256&code_challenge=");
    s.append(code_challenge);
    s.append("&state=");
    s.append(state);
    s
}

} // verus!
