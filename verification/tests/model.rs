use sui_cli::model::{SteamGame, SteamGameInfo, SteamGameWithName};

fn owned(appid: u32, total: u64) -> SteamGame {
    SteamGame {
        appid,
        playtime_forever: total,
        playtime_linux_forever: 0,
        playtime_mac_forever: 0,
        playtime_windows_forever: total,
    }
}

fn listed(appid: u32, name: &str) -> SteamGameInfo {
    SteamGameInfo { appid, name: name.to_string() }
}

#[test]
fn add_name_keeps_every_playtime() {
    let game = SteamGame {
        appid: 440,
        playtime_forever: 1000,
        playtime_linux_forever: 100,
        playtime_mac_forever: 20,
        playtime_windows_forever: 880,
    };
    let named = SteamGameWithName::add_name("Team Fortress 2".to_string(), game);
    assert_eq!(named.name, "Team Fortress 2");
    assert_eq!(named.playtime_forever, 1000);
    assert_eq!(named.playtime_linux_forever, 100);
    assert_eq!(named.playtime_mac_forever, 20);
    assert_eq!(named.playtime_windows_forever, 880);
}

#[test]
fn add_name_accepts_an_empty_name() {
    let named = SteamGameWithName::add_name(String::new(), owned(1, u64::MAX));
    assert_eq!(named.name, "");
    assert_eq!(named.playtime_forever, u64::MAX);
    assert_eq!(named.playtime_windows_forever, u64::MAX);
}

#[test]
fn get_name_finds_the_entry() {
    let directory = vec![listed(10, "Alpha"), listed(20, "Beta"), listed(30, "Gamma")];
    assert_eq!(owned(10, 1).get_name(&directory), Ok("Alpha".to_string()));
    assert_eq!(owned(20, 1).get_name(&directory), Ok("Beta".to_string()));
    assert_eq!(owned(30, 1).get_name(&directory), Ok("Gamma".to_string()));
}

#[test]
fn get_name_takes_the_first_of_two_entries() {
    let directory = vec![listed(10, "Alpha"), listed(20, "Old"), listed(20, "New")];
    assert_eq!(owned(20, 5).get_name(&directory), Ok("Old".to_string()));
}

#[test]
fn get_name_fails_on_an_unknown_identifier() {
    let directory = vec![listed(10, "Alpha"), listed(20, "Beta")];
    assert_eq!(owned(15, 5).get_name(&directory), Err(()));
    assert_eq!(owned(0, 5).get_name(&directory), Err(()));
    assert_eq!(owned(u32::MAX, 5).get_name(&directory), Err(()));
}

#[test]
fn get_name_fails_on_an_empty_directory() {
    let directory: Vec<SteamGameInfo> = Vec::new();
    assert_eq!(owned(10, 5).get_name(&directory), Err(()));
}

#[test]
fn get_name_leaves_the_directory_as_it_is() {
    let directory = vec![listed(10, "Alpha"), listed(20, "Beta")];
    let before = directory.clone();
    let _ = owned(20, 5).get_name(&directory);
    assert_eq!(directory, before);
}
