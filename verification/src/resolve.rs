//! Joining a report with the app directory.
//!
//! A pass walks the report's games in order and names each from the
//! directory. It stops at the first game that the directory does not know
//! and asks for a fresh directory; the caller fetches one and resumes the
//! pass with it, at the game it stopped at. Fetching is the caller's
//! business: the pass itself only decides.
//!
//! However often a pass stops, it lists every game of the report once it
//! is complete, or fails at a game that no directory knows.

use crate::model::{
    lookup, named, AppName, NamedGame, NamedReport, SteamGame, SteamGameInfo, SteamGameWithName,
    SteamOwnedGames, SteamOwnedGamesWithNames,
};
use crate::text::{decimal, push_decimal};
use vstd::prelude::*;
use vstd::string::*;

verus! {

/// The index of the first game at or after `from` that the directory has no
/// name for; the number of games where every one of them has a name.
pub open spec fn first_unnamed(games: Seq<SteamGame>, directory: Seq<AppName>, from: int) -> int
    decreases games.len() - from,
{
    if from < 0 || from >= games.len() {
        games.len() as int
    } else if lookup(directory, games[from].appid) is None {
        from
    } else {
        first_unnamed(games, directory, from + 1)
    }
}

/// The games `from..to` of a report, each under the name that the directory
/// gives it, in the report's order.
pub open spec fn named_range(
    games: Seq<SteamGame>,
    directory: Seq<AppName>,
    from: int,
    to: int,
) -> Seq<NamedGame> {
    Seq::new(
        (to - from) as nat,
        |i: int| named(lookup(directory, games[from + i].appid)->0, games[from + i]),
    )
}

/// `listed` has one named game for each game of `games`, in the same order
/// and with the same playtimes.
pub open spec fn joins(listed: Seq<NamedGame>, games: Seq<SteamGame>) -> bool {
    &&& listed.len() == games.len()
    &&& forall|i: int|
        0 <= i < listed.len() ==> #[trigger] listed[i] == named(listed[i].name, games[i])
}

/// A pass that stopped at a game without a name and waits for a fresh
/// directory. The games before that one are named, each of them.
#[derive(Debug)]
pub struct PendingPass {
    game_count: u32,
    games: Vec<SteamGame>,
    position: usize,
    named: Vec<SteamGameWithName>,
}

/// Where a pass stands when it hands control back.
#[derive(Debug)]
pub enum Resolution {
    /// Every game was handled. `directory` is the directory last in use.
    Complete { report: SteamOwnedGamesWithNames, directory: Vec<SteamGameInfo> },
    /// The directory in use has no entry for `appid`: it is stale. The
    /// caller fetches the directory again and resumes `pending` with it.
    NeedsRefresh { pending: PendingPass, appid: u32 },
}

/// The identifier of a game that even a fresh directory does not know.
#[derive(Debug, Clone, Copy, PartialEq, Eq)]
pub struct UnresolvableIdentifier {
    pub appid: u32,
}

impl UnresolvableIdentifier {
    /// The text of `message` for the identifier `appid`.
    pub open spec fn message_text(appid: u32) -> Seq<char> {
        "Fetched new list, but it is still missing id "@ + decimal(appid as nat) + "!"@
    }

    /// Says which identifier is unknown, for the user to read.
    pub fn message(&self) -> (text: String)
        ensures
            text@ == Self::message_text(self.appid),
    {
        let mut text = String::from_str("Fetched new list, but it is still missing id ");
        push_decimal(&mut text, self.appid as u64);
        text.append("!");
        text
    }
}

impl PendingPass {
    #[verifier::type_invariant]
    spec fn well_formed(&self) -> bool {
        &&& self.position < self.games@.len()
        &&& joins(self.named.deep_view(), self.games@.take(self.position as int))
    }

    /// The count that the report came with.
    pub closed spec fn game_count(&self) -> u32 {
        self.game_count
    }

    /// The games of the report, all of them.
    pub closed spec fn games(&self) -> Seq<SteamGame> {
        self.games@
    }

    /// The index of the game that the pass stopped at.
    pub closed spec fn position(&self) -> int {
        self.position as int
    }

    /// The games named so far.
    pub closed spec fn named(&self) -> Seq<NamedGame> {
        self.named.deep_view()
    }
}

/// Where a pass over `games` stands that had named `named_before`, the
/// games before `from`, and went on at `from` with `directory`: it has
/// named the games from `from` up to the first that `directory` lacks, and
/// is complete where there is no such game.
pub open spec fn continues(
    outcome: Resolution,
    game_count: u32,
    games: Seq<SteamGame>,
    named_before: Seq<NamedGame>,
    from: int,
    directory: Vec<SteamGameInfo>,
) -> bool {
    let stop = first_unnamed(games, directory.deep_view(), from);
    let named_now = named_before + named_range(games, directory.deep_view(), from, stop);
    match outcome {
        Resolution::Complete { report, directory: kept } => {
            &&& stop == games.len()
            &&& report@ == (NamedReport { game_count, games: named_now })
            &&& joins(report@.games, games)
            &&& kept == directory
        },
        Resolution::NeedsRefresh { pending, appid } => {
            &&& stop < games.len()
            &&& appid == games[stop].appid
            &&& pending.game_count() == game_count
            &&& pending.games() == games
            &&& pending.position() == stop
            &&& pending.named() == named_now
            &&& pending.named().len() == stop
            &&& joins(pending.named(), games.take(stop))
        },
    }
}

fn run(
    game_count: u32,
    games: Vec<SteamGame>,
    from: usize,
    named_before: Vec<SteamGameWithName>,
    directory: Vec<SteamGameInfo>,
) -> (outcome: Resolution)
    requires
        from <= games.len(),
        joins(named_before.deep_view(), games@.take(from as int)),
    ensures
        continues(outcome, game_count, games@, named_before.deep_view(), from as int, directory),
{
    let ghost before = named_before.deep_view();
    let ghost entries = directory.deep_view();
    let mut named_games = named_before;
    let mut i: usize = from;
    assert(named_range(games@, entries, from as int, from as int) =~= Seq::empty());
    assert(before + Seq::<NamedGame>::empty() =~= before);
    while i < games.len()
        invariant
            from <= i <= games.len(),
            before == named_before.deep_view(),
            entries == directory.deep_view(),
            first_unnamed(games@, entries, from as int) == first_unnamed(games@, entries, i as int),
            named_games.deep_view() == before + named_range(games@, entries, from as int, i as int),
            joins(named_games.deep_view(), games@.take(i as int)),
        decreases games.len() - i,
    {
        let game = games[i];
        match game.get_name(&directory) {
            Ok(name) => {
                let ghost so_far = named_games.deep_view();
                let with_name = SteamGameWithName::add_name(name, game);
                named_games.push(with_name);
                assert(named_games.deep_view() =~= so_far.push(with_name@));
                assert(named_range(games@, entries, from as int, i + 1) =~= named_range(
                    games@,
                    entries,
                    from as int,
                    i as int,
                ).push(with_name@));
                assert(named_games.deep_view() =~= before + named_range(
                    games@,
                    entries,
                    from as int,
                    i + 1,
                ));
            },
            Err(_) => {
                let pending = PendingPass { game_count, games, position: i, named: named_games };
                return Resolution::NeedsRefresh { pending, appid: game.appid };
            },
        }
        i += 1;
    }
    assert(games@.take(i as int) =~= games@);
    let report = SteamOwnedGamesWithNames { game_count, games: named_games };
    Resolution::Complete { report, directory }
}

/// Starts a pass: names the report's games from `directory`, in the
/// report's order, up to the first game that `directory` has no entry for.
///
/// Where every game has an entry the pass is complete: the list has one
/// named game for each game of the report, in the same order and with the
/// same playtimes, and the report's count is carried over as it is.
/// Otherwise the pass asks for a refresh and names the identifier that was
/// missing.
pub fn resolve(report: SteamOwnedGames, directory: Vec<SteamGameInfo>) -> (outcome: Resolution)
    ensures
        continues(outcome, report.game_count, report.games@, Seq::empty(), 0, directory),
        (forall|i: int|
            0 <= i < report.games@.len() ==> lookup(
                directory.deep_view(),
                (#[trigger] report.games@[i]).appid,
            ) is Some) ==> outcome is Complete,
{
    let SteamOwnedGames { game_count, games } = report;
    proof {
        lemma_first_unnamed(games@, directory.deep_view(), 0);
    }
    let outcome = run(game_count, games, 0, Vec::new(), directory);
    proof {
        let stop = first_unnamed(games@, directory.deep_view(), 0);
        assert(Seq::<NamedGame>::empty() + named_range(games@, directory.deep_view(), 0, stop)
            =~= named_range(games@, directory.deep_view(), 0, stop));
    }
    outcome
}

/// Resumes a pass with a directory that was fetched anew.
///
/// The game that the pass stopped at is looked up once more, in the fresh
/// directory. Where the fresh directory lacks it too, the pass fails and
/// names the identifier. Where it is there now, the game is listed under
/// its fresh name, and the pass names the games that follow from the fresh
/// directory until it is complete or stops again, at a later game.
pub fn resume(pending: PendingPass, directory: Vec<SteamGameInfo>) -> (outcome: Result<
    Resolution,
    UnresolvableIdentifier,
>)
    ensures
        match outcome {
            Ok(next) => {
                &&& lookup(directory.deep_view(), pending.games()[pending.position()].appid) is Some
                &&& continues(
                    next,
                    pending.game_count(),
                    pending.games(),
                    pending.named(),
                    pending.position(),
                    directory,
                )
                &&& next matches Resolution::NeedsRefresh { pending: again, .. }
                    ==> again.position() > pending.position()
            },
            Err(unknown) => {
                &&& lookup(directory.deep_view(), pending.games()[pending.position()].appid) is None
                &&& unknown.appid == pending.games()[pending.position()].appid
            },
        },
{
    proof {
        use_type_invariant(&pending);
        lemma_first_unnamed(pending.games(), directory.deep_view(), pending.position());
        lemma_first_unnamed(pending.games(), directory.deep_view(), pending.position() + 1);
    }
    let PendingPass { game_count, games, position, named } = pending;
    match run(game_count, games, position, named, directory) {
        Resolution::NeedsRefresh { pending: again, appid } => {
            if again.position == position {
                Err(UnresolvableIdentifier { appid })
            } else {
                Ok(Resolution::NeedsRefresh { pending: again, appid })
            }
        },
        complete => Ok(complete),
    }
}

/// `first_unnamed` stops inside `from..=len`, at a game without a name or at
/// the end, and every game that it passes over has a name.
pub proof fn lemma_first_unnamed(games: Seq<SteamGame>, directory: Seq<AppName>, from: int)
    requires
        0 <= from <= games.len(),
    ensures
        from <= first_unnamed(games, directory, from) <= games.len(),
        first_unnamed(games, directory, from) < games.len() ==> lookup(
            directory,
            games[first_unnamed(games, directory, from)].appid,
        ) is None,
        forall|i: int|
            from <= i < first_unnamed(games, directory, from) ==> lookup(
                directory,
                (#[trigger] games[i]).appid,
            ) is Some,
    decreases games.len() - from,
{
    if from < games.len() && lookup(directory, games[from].appid) is Some {
        lemma_first_unnamed(games, directory, from + 1);
    }
}

/// A directory that has an entry for every game of a report names them
/// all: the pass never stops, and the list it makes has one named game for
/// each game of the report, in the report's order, under the name that the
/// directory gives it and with the game's own playtimes.
pub proof fn lemma_matching_directory_names_all(games: Seq<SteamGame>, directory: Seq<AppName>)
    requires
        forall|i: int|
            0 <= i < games.len() ==> lookup(directory, (#[trigger] games[i]).appid) is Some,
    ensures
        first_unnamed(games, directory, 0) == games.len(),
        named_range(games, directory, 0, games.len() as int).len() == games.len(),
        forall|i: int|
            0 <= i < games.len() ==> {
                let joined = #[trigger] named_range(games, directory, 0, games.len() as int)[i];
                &&& lookup(directory, games[i].appid) == Some(joined.name)
                &&& joined.playtime_forever == games[i].playtime_forever
                &&& joined.playtime_linux_forever == games[i].playtime_linux_forever
                &&& joined.playtime_mac_forever == games[i].playtime_mac_forever
                &&& joined.playtime_windows_forever == games[i].playtime_windows_forever
            },
{
    lemma_first_unnamed(games, directory, 0);
}

/// The games that a pass has named by the time it stops at `stop` are the
/// games before `stop`, one for one: `named_before` covers the games before
/// `from`, and the pass adds the games from `from` up to `stop`.
pub proof fn lemma_named_range_joins(
    games: Seq<SteamGame>,
    directory: Seq<AppName>,
    named_before: Seq<NamedGame>,
    from: int,
)
    requires
        0 <= from <= games.len(),
        joins(named_before, games.take(from)),
    ensures
        joins(
            named_before + named_range(
                games,
                directory,
                from,
                first_unnamed(games, directory, from),
            ),
            games.take(first_unnamed(games, directory, from)),
        ),
{
    lemma_first_unnamed(games, directory, from);
}

} // verus!
