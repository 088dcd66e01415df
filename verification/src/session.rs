//! Plain data carried between the engine and its external collaborators:
//! the single-sign-on configuration, the PKCE pair, token responses and
//! character records, plus the one pure scheduling decision the data
//! refresh needs. All I/O around these values lives outside the engine.

use vstd::prelude::*;

verus! {

/// Configuration for the single-sign-on endpoints and client identity.
#[derive(Debug)]
pub struct EveSsoConfig {
    pub client_id: String,
    pub redirect_uri: String,
    pub auth_url: String,
    pub token_url: String,
    pub scopes: Vec<String>,
}

/// A PKCE challenge and verifier pair.
#[derive(Debug)]
pub struct PkcePair {
    pub challenge: String,
    pub verifier: String,
}

/// An OAuth2 token response.
#[derive(Debug)]
pub struct TokenResponse {
    pub access_token: String,
    pub refresh_token: Option<String>,
    pub expires_in: u64,
    pub token_type: String,
}

/// A character record from the game-data API.
#[derive(Debug)]
pub struct CharacterInfo {
    pub character_id: i64,
    pub name: String,
}

/// Number of seconds after which the static data snapshot is stale.
pub const SDE_REFRESH_SECONDS: u64 = 86400;

/// Whether a refresh of the static data snapshot is due: always when no
/// previous refresh is recorded, otherwise once more than a day has
/// passed since the recorded one.
pub fn sde_refresh_due(last_update: Option<u64>, now: u64) -> (r: bool)
    ensures
        r == match last_update {
            Option::None => true,
            Option::Some(l) => now > l + SDE_REFRESH_SECONDS,
        },
{
    match last_update {
        Option::None => true,
        Option::Some(l) => now as u128 > l as u128 + SDE_REFRESH_SECONDS as u128,
    }
}

} // verus!
