use sui_cli::request::{owned_games_url, APP_LIST_URL, OWNED_GAMES_URL};
use sui_cli::text::push_decimal;

#[test]
fn the_app_list_has_one_address() {
    assert_eq!(APP_LIST_URL, "https://api.steampowered.com/ISteamApps/GetAppList/v2/");
}

#[test]
fn owned_games_url_carries_key_and_user() {
    assert_eq!(
        owned_games_url("0123456789ABCDEF", 76561197960287930),
        "http://api.steampowered.com/IPlayerService/GetOwnedGames/v0001/?key=0123456789ABCDEF&steamid=76561197960287930&format=json"
    );
}

#[test]
fn owned_games_url_begins_with_the_endpoint() {
    let url = owned_games_url("k", 1);
    assert!(url.starts_with(OWNED_GAMES_URL));
    assert_eq!(&url[OWNED_GAMES_URL.len()..], "k&steamid=1&format=json");
}

#[test]
fn owned_games_url_passes_the_key_on_as_it_is() {
    assert_eq!(
        owned_games_url("a b&c=d/\u{e9}", 0),
        "http://api.steampowered.com/IPlayerService/GetOwnedGames/v0001/?key=a b&c=d/\u{e9}&steamid=0&format=json"
    );
    assert_eq!(
        owned_games_url("", u64::MAX),
        "http://api.steampowered.com/IPlayerService/GetOwnedGames/v0001/?key=&steamid=18446744073709551615&format=json"
    );
}

#[test]
fn push_decimal_writes_the_digits() {
    for (number, digits) in [
        (0u64, "0"),
        (7, "7"),
        (9, "9"),
        (10, "10"),
        (99, "99"),
        (100, "100"),
        (120, "120"),
        (1_000_000, "1000000"),
        (9_007_199_254_740_993, "9007199254740993"),
        (u64::MAX, "18446744073709551615"),
    ] {
        let mut text = String::new();
        push_decimal(&mut text, number);
        assert_eq!(text, digits);
    }
}

#[test]
fn push_decimal_writes_behind_what_is_there() {
    let mut text = "id ".to_string();
    push_decimal(&mut text, 42);
    push_decimal(&mut text, 0);
    assert_eq!(text, "id 420");
}

#[test]
fn push_decimal_agrees_with_std() {
    let mut number: u64 = 1;
    for _ in 0..64 {
        for probe in [number - 1, number, number + 1] {
            let mut text = String::new();
            push_decimal(&mut text, probe);
            assert_eq!(text, probe.to_string());
        }
        number = number.wrapping_mul(2).max(1);
    }
}
