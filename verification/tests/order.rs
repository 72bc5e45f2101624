use sui_cli::model::SteamGameWithName;
use sui_cli::order::{parse_sort_key, sort_by_argument, sort_games, SortKey};

fn titled(name: &str, total: u64, mark: u64) -> SteamGameWithName {
    SteamGameWithName {
        name: name.to_string(),
        playtime_forever: total,
        playtime_linux_forever: mark,
        playtime_mac_forever: 0,
        playtime_windows_forever: 0,
    }
}

fn names(games: &[SteamGameWithName]) -> Vec<String> {
    games.iter().map(|game| game.name.clone()).collect()
}

fn marks(games: &[SteamGameWithName]) -> Vec<u64> {
    games.iter().map(|game| game.playtime_linux_forever).collect()
}

fn shuffled(count: u64, names_of: u64, playtimes_of: u64) -> Vec<SteamGameWithName> {
    let mut state: u64 = 0x2545_F491_4F6C_DD1D;
    let mut games = Vec::new();
    for mark in 0..count {
        state = state.wrapping_mul(6364136223846793005).wrapping_add(1442695040888963407);
        let name = format!("game {}", (state >> 33) % names_of);
        state = state.wrapping_mul(6364136223846793005).wrapping_add(1442695040888963407);
        games.push(titled(&name, (state >> 33) % playtimes_of, mark));
    }
    games
}

#[test]
fn parse_sort_key_knows_three_keys() {
    assert_eq!(parse_sort_key("playtime"), Some(SortKey::Playtime));
    assert_eq!(parse_sort_key("name"), Some(SortKey::Name));
    assert_eq!(parse_sort_key("default"), Some(SortKey::Default));
}

#[test]
fn parse_sort_key_knows_nothing_else() {
    assert_eq!(parse_sort_key(""), None);
    assert_eq!(parse_sort_key("Playtime"), None);
    assert_eq!(parse_sort_key("NAME"), None);
    assert_eq!(parse_sort_key("names"), None);
    assert_eq!(parse_sort_key("nam"), None);
    assert_eq!(parse_sort_key(" name"), None);
    assert_eq!(parse_sort_key("default "), None);
    assert_eq!(parse_sort_key("playtime_forever"), None);
    assert_eq!(parse_sort_key("n\u{e4}me"), None);
}

#[test]
fn sorting_by_playtime_is_ascending() {
    let mut games = vec![titled("c", 300, 0), titled("a", 5, 1), titled("b", 120, 2), titled("d", 0, 3)];
    sort_games(&mut games, SortKey::Playtime);
    assert_eq!(names(&games), vec!["d", "a", "b", "c"]);
    for pair in games.windows(2) {
        assert!(pair[0].playtime_forever <= pair[1].playtime_forever);
    }
}

#[test]
fn sorting_by_playtime_keeps_ties_in_their_order() {
    let mut games = vec![
        titled("z", 60, 0),
        titled("y", 10, 1),
        titled("x", 60, 2),
        titled("w", 10, 3),
        titled("v", 60, 4),
    ];
    sort_games(&mut games, SortKey::Playtime);
    assert_eq!(names(&games), vec!["y", "w", "z", "x", "v"]);
    assert_eq!(marks(&games), vec![1, 3, 0, 2, 4]);
}

#[test]
fn sorting_by_playtime_looks_at_the_total_only() {
    let mut games = vec![
        SteamGameWithName {
            name: "much on linux".to_string(),
            playtime_forever: 1,
            playtime_linux_forever: 900,
            playtime_mac_forever: 900,
            playtime_windows_forever: 900,
        },
        SteamGameWithName {
            name: "none on linux".to_string(),
            playtime_forever: 0,
            playtime_linux_forever: 0,
            playtime_mac_forever: 0,
            playtime_windows_forever: 0,
        },
    ];
    sort_games(&mut games, SortKey::Playtime);
    assert_eq!(names(&games), vec!["none on linux", "much on linux"]);
}

#[test]
fn sorting_by_name_is_lexicographic() {
    let mut games = vec![
        titled("beta", 1, 0),
        titled("Alpha", 2, 1),
        titled("alpha", 3, 2),
        titled("Al", 4, 3),
        titled("", 5, 4),
        titled("Zeta", 6, 5),
        titled("\u{c9}clair", 7, 6),
        titled("alpha 2", 8, 7),
        titled("10 Second Ninja", 9, 8),
    ];
    sort_games(&mut games, SortKey::Name);
    assert_eq!(
        names(&games),
        vec!["", "10 Second Ninja", "Al", "Alpha", "Zeta", "alpha", "alpha 2", "beta", "\u{c9}clair"]
    );
    for pair in games.windows(2) {
        assert!(pair[0].name <= pair[1].name);
    }
}

#[test]
fn sorting_by_name_orders_by_code_point() {
    let mut games = vec![
        titled("\u{1F47E}", 1, 0),
        titled("\u{ff5e}", 2, 1),
        titled("\u{e9}", 3, 2),
        titled("~", 4, 3),
        titled("\u{7ff}", 5, 4),
        titled("\u{800}", 6, 5),
    ];
    sort_games(&mut games, SortKey::Name);
    assert_eq!(
        names(&games),
        vec!["~", "\u{e9}", "\u{7ff}", "\u{800}", "\u{ff5e}", "\u{1F47E}"]
    );
}

#[test]
fn sorting_by_name_keeps_ties_in_their_order() {
    let mut games = vec![
        titled("same", 9, 0),
        titled("other", 8, 1),
        titled("same", 7, 2),
        titled("other", 6, 3),
    ];
    sort_games(&mut games, SortKey::Name);
    assert_eq!(names(&games), vec!["other", "other", "same", "same"]);
    assert_eq!(marks(&games), vec![1, 3, 0, 2]);
}

#[test]
fn the_default_order_moves_nothing() {
    let mut games = vec![titled("c", 300, 0), titled("a", 5, 1), titled("b", 120, 2)];
    let before = games.clone();
    sort_games(&mut games, SortKey::Default);
    assert_eq!(games, before);
    assert!(sort_by_argument(&mut games, "default"));
    assert_eq!(games, before);
}

#[test]
fn an_unknown_argument_moves_nothing() {
    let mut games = vec![titled("c", 300, 0), titled("a", 5, 1), titled("b", 120, 2)];
    let before = games.clone();
    assert!(!sort_by_argument(&mut games, "size"));
    assert_eq!(games, before);
    assert!(!sort_by_argument(&mut games, ""));
    assert_eq!(games, before);
    assert!(!sort_by_argument(&mut games, "Name"));
    assert_eq!(games, before);
}

#[test]
fn sort_by_argument_sorts_by_the_key_it_names() {
    let mut games = vec![titled("c", 1, 0), titled("a", 3, 1), titled("b", 2, 2)];
    assert!(sort_by_argument(&mut games, "name"));
    assert_eq!(names(&games), vec!["a", "b", "c"]);
    assert!(sort_by_argument(&mut games, "playtime"));
    assert_eq!(names(&games), vec!["c", "b", "a"]);
}

#[test]
fn short_lists_are_sorted_too() {
    let mut none: Vec<SteamGameWithName> = Vec::new();
    sort_games(&mut none, SortKey::Playtime);
    assert!(none.is_empty());
    sort_games(&mut none, SortKey::Name);
    assert!(none.is_empty());

    let mut one = vec![titled("only", 1, 0)];
    sort_games(&mut one, SortKey::Name);
    assert_eq!(one, vec![titled("only", 1, 0)]);

    let mut two = vec![titled("b", 2, 0), titled("a", 1, 1)];
    sort_games(&mut two, SortKey::Playtime);
    assert_eq!(names(&two), vec!["a", "b"]);
}

#[test]
fn a_sorted_or_reversed_list_comes_out_sorted() {
    let mut rising: Vec<SteamGameWithName> =
        (0..50u64).map(|i| titled(&format!("{:03}", i), i, i)).collect();
    let expected = rising.clone();
    sort_games(&mut rising, SortKey::Playtime);
    assert_eq!(rising, expected);

    let mut falling: Vec<SteamGameWithName> = expected.iter().rev().cloned().collect();
    sort_games(&mut falling, SortKey::Name);
    assert_eq!(falling, expected);
}

#[test]
fn sorting_agrees_with_the_stable_sort_of_std() {
    let games = shuffled(400, 40, 25);

    let mut by_playtime = games.clone();
    sort_games(&mut by_playtime, SortKey::Playtime);
    let mut expected = games.clone();
    expected.sort_by(|x, y| x.playtime_forever.cmp(&y.playtime_forever));
    assert_eq!(by_playtime, expected);

    let mut by_name = games.clone();
    sort_games(&mut by_name, SortKey::Name);
    let mut expected = games.clone();
    expected.sort_by(|x, y| x.name.cmp(&y.name));
    assert_eq!(by_name, expected);
}
