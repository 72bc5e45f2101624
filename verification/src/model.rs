//! The data of a report and the lookup of a game's name.

use vstd::prelude::*;

verus! {

/// One owned game as the service reports it. Playtimes are minutes.
#[derive(Debug, Clone, Copy, PartialEq, Eq)]
pub struct SteamGame {
    pub appid: u32,
    pub playtime_forever: u64,
    pub playtime_linux_forever: u64,
    pub playtime_mac_forever: u64,
    pub playtime_windows_forever: u64,
}

/// A user's owned games. `game_count` is what the service says, which need
/// not be the length of `games`.
#[derive(Debug, Clone, PartialEq, Eq)]
pub struct SteamOwnedGames {
    pub game_count: u32,
    pub games: Vec<SteamGame>,
}

/// One entry of the app directory: an identifier and its display name.
#[derive(Debug, Clone, PartialEq, Eq)]
pub struct SteamGameInfo {
    pub appid: u32,
    pub name: String,
}

/// An owned game joined with its name.
#[derive(Debug, Clone, PartialEq, Eq)]
pub struct SteamGameWithName {
    pub name: String,
    pub playtime_forever: u64,
    pub playtime_linux_forever: u64,
    pub playtime_mac_forever: u64,
    pub playtime_windows_forever: u64,
}

/// The joined report: the service's count and the named games.
#[derive(Debug, Clone, PartialEq, Eq)]
pub struct SteamOwnedGamesWithNames {
    pub game_count: u32,
    pub games: Vec<SteamGameWithName>,
}

/// What a directory entry is: an identifier and the characters of a name.
pub struct AppName {
    pub appid: u32,
    pub name: Seq<char>,
}

/// What a named game is: the characters of its name and its playtimes.
pub struct NamedGame {
    pub name: Seq<char>,
    pub playtime_forever: u64,
    pub playtime_linux_forever: u64,
    pub playtime_mac_forever: u64,
    pub playtime_windows_forever: u64,
}

/// What a joined report is.
pub struct NamedReport {
    pub game_count: u32,
    pub games: Seq<NamedGame>,
}

impl View for SteamGameInfo {
    type V = AppName;

    open spec fn view(&self) -> AppName {
        AppName { appid: self.appid, name: self.name@ }
    }
}

impl DeepView for SteamGameInfo {
    type V = AppName;

    open spec fn deep_view(&self) -> AppName {
        self@
    }
}

impl View for SteamGameWithName {
    type V = NamedGame;

    open spec fn view(&self) -> NamedGame {
        NamedGame {
            name: self.name@,
            playtime_forever: self.playtime_forever,
            playtime_linux_forever: self.playtime_linux_forever,
            playtime_mac_forever: self.playtime_mac_forever,
            playtime_windows_forever: self.playtime_windows_forever,
        }
    }
}

impl DeepView for SteamGameWithName {
    type V = NamedGame;

    open spec fn deep_view(&self) -> NamedGame {
        self@
    }
}

impl View for SteamOwnedGamesWithNames {
    type V = NamedReport;

    open spec fn view(&self) -> NamedReport {
        NamedReport { game_count: self.game_count, games: self.games.deep_view() }
    }
}

/// The game `game` under the name `name`: the playtimes are the game's own.
pub open spec fn named(name: Seq<char>, game: SteamGame) -> NamedGame {
    NamedGame {
        name,
        playtime_forever: game.playtime_forever,
        playtime_linux_forever: game.playtime_linux_forever,
        playtime_mac_forever: game.playtime_mac_forever,
        playtime_windows_forever: game.playtime_windows_forever,
    }
}

/// The name that the directory gives to `appid`: that of the first entry
/// with this identifier, or `None` where no entry has it.
pub open spec fn lookup(directory: Seq<AppName>, appid: u32) -> Option<Seq<char>>
    decreases directory.len(),
{
    if directory.len() == 0 {
        None
    } else if directory[0].appid == appid {
        Some(directory[0].name)
    } else {
        lookup(directory.drop_first(), appid)
    }
}

/// `lookup` finds nothing exactly when no entry carries the identifier, and
/// otherwise answers with the earliest entry that does.
pub proof fn lemma_lookup_first_match(directory: Seq<AppName>, appid: u32)
    ensures
        lookup(directory, appid) is None <==> forall|i: int|
            0 <= i < directory.len() ==> (#[trigger] directory[i]).appid != appid,
        lookup(directory, appid) matches Some(name) ==> exists|i: int|
            0 <= i < directory.len() && (#[trigger] directory[i]).appid == appid
                && directory[i].name == name && forall|j: int|
                0 <= j < i ==> (#[trigger] directory[j]).appid != appid,
    decreases directory.len(),
{
    if directory.len() == 0 {
    } else if directory[0].appid == appid {
        assert(directory[0].appid == appid);
    } else {
        let rest = directory.drop_first();
        lemma_lookup_first_match(rest, appid);
        assert(forall|i: int| 0 <= i < rest.len() ==> rest[i] == directory[i + 1]);
        if lookup(rest, appid) is None {
            assert forall|i: int| 0 <= i < directory.len() implies (#[trigger] directory[i]).appid
                != appid by {
                if i > 0 {
                    assert(rest[i - 1] == directory[i]);
                }
            }
        } else {
            let name = lookup(rest, appid)->0;
            let k = choose|i: int|
                0 <= i < rest.len() && (#[trigger] rest[i]).appid == appid && rest[i].name == name
                    && forall|j: int| 0 <= j < i ==> (#[trigger] rest[j]).appid != appid;
            assert(directory[k + 1] == rest[k]);
            assert forall|j: int| 0 <= j < k + 1 implies (#[trigger] directory[j]).appid
                != appid by {
                if j > 0 {
                    assert(rest[j - 1] == directory[j]);
                }
            }
        }
    }
}

impl SteamGameWithName {
    /// Joins a game with its name. The playtimes are carried over unchanged.
    pub fn add_name(name: String, without_name: SteamGame) -> (with_name: Self)
        ensures
            with_name.name == name,
            with_name@ == named(name@, without_name),
    {
        SteamGameWithName {
            name,
            playtime_forever: without_name.playtime_forever,
            playtime_windows_forever: without_name.playtime_windows_forever,
            playtime_linux_forever: without_name.playtime_linux_forever,
            playtime_mac_forever: without_name.playtime_mac_forever,
        }
    }
}

impl SteamGame {
    /// Looks this game's identifier up in the directory, front to back, and
    /// returns a copy of the first matching entry's name; `Err` where the
    /// directory has no entry for it.
    pub fn get_name(&self, data: &Vec<SteamGameInfo>) -> (found: Result<String, ()>)
        ensures
            match found {
                Ok(name) => lookup(data.deep_view(), self.appid) == Some(name@),
                Err(_) => lookup(data.deep_view(), self.appid) is None,
            },
    {
        let ghost directory = data.deep_view();
        let mut i: usize = 0;
        assert(directory.skip(0) =~= directory);
        while i < data.len()
            invariant
                i <= data.len(),
                directory == data.deep_view(),
                lookup(directory, self.appid) == lookup(directory.skip(i as int), self.appid),
            decreases data.len() - i,
        {
            proof {
                assert(directory.skip(i as int)[0] == data[i as int]@);
                assert(directory.skip(i as int).drop_first() =~= directory.skip(i + 1));
            }
            if data[i].appid == self.appid {
                return Ok(data[i].name.clone());
            }
            i += 1;
        }
        Err(())
    }
}

} // verus!
