//! The addresses that the data is fetched from.

use crate::text::{decimal, push_decimal};
use vstd::prelude::*;
use vstd::string::*;

verus! {

/// The address of the public app directory.
pub const APP_LIST_URL: &'static str = "https://api.steampowered.com/ISteamApps/GetAppList/v2/";

/// The address of a user's owned games, up to the value of the key.
pub const OWNED_GAMES_URL: &'static str =
    "http://api.steampowered.com/IPlayerService/GetOwnedGames/v0001/?key=";

/// The address that answers with the games of `user_id`, asked with
/// `api_key`. The key is passed on as it is.
pub open spec fn owned_games_address(api_key: Seq<char>, user_id: u64) -> Seq<char> {
    OWNED_GAMES_URL@ + api_key + "&steamid="@ + decimal(user_id as nat) + "&format=json"@
}

/// Builds the address of the owned-games query for a user.
pub fn owned_games_url(api_key: &str, user_id: u64) -> (url: String)
    ensures
        url@ == owned_games_address(api_key@, user_id),
{
    let mut url = String::from_str(OWNED_GAMES_URL);
    url.append(api_key);
    url.append("&steamid=");
    push_decimal(&mut url, user_id);
    url.append("&format=json");
    url
}

} // verus!
