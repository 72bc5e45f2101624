//! The lines of a report.
//!
//! Each game is shown under its name with its total playtime in hours, to
//! two decimal places; a last line gives the number of games that the
//! service counted.

use crate::model::SteamGameWithName;
use crate::text::{decimal, digit, digit_text, push_decimal};
use vstd::prelude::*;
use vstd::string::*;

verus! {

/// The escape sequence that colours a game's name.
pub const GAME_COLOR: &'static str = "\x1B[34m";

/// The escape sequence that colours a playtime.
pub const PLAYTIME_COLOR: &'static str = "\x1B[0m";

/// The escape sequence that colours the closing line.
pub const INFO_COLOR: &'static str = "\x1B[32m";

/// A playtime in hours: whole hours and hundredths of an hour.
#[derive(Debug, Clone, Copy, PartialEq, Eq)]
pub struct Hours {
    pub whole: u64,
    pub hundredths: u8,
}

/// The number of hundredths of an hour that is nearest to `minutes`
/// minutes.
pub open spec fn hundredths_of_hours(minutes: int) -> int {
    (5 * minutes + 1) / 3
}

/// `hundredths_of_hours` rounds to the nearest hundredth: it is off by at
/// most a third of a hundredth, and minutes never fall halfway between two.
pub proof fn lemma_nearest_hundredth(minutes: int)
    requires
        0 <= minutes,
    ensures
        -1 <= 3 * hundredths_of_hours(minutes) - 5 * minutes <= 1,
{
}

/// Converts minutes to hours, rounded to the nearest hundredth.
pub fn playtime_hours(minutes: u64) -> (hours: Hours)
    ensures
        hours.hundredths < 100,
        100 * hours.whole + hours.hundredths == hundredths_of_hours(minutes as int),
{
    let whole: u64 = minutes / 60;
    let rest: u64 = minutes % 60;
    let hundredths: u64 = (rest * 5 + 1) / 3;
    Hours { whole, hundredths: hundredths as u8 }
}

/// A playtime as text: the whole hours, a point, and two digits.
pub open spec fn hours_text(minutes: u64) -> Seq<char> {
    let hundredths = hundredths_of_hours(minutes as int);
    decimal((hundredths / 100) as nat) + seq![
        '.',
        digit(hundredths % 100 / 10),
        digit(hundredths % 10),
    ]
}

/// The two lines of a game, without the line break that ends them.
pub open spec fn game_lines(name: Seq<char>, minutes: u64) -> Seq<char> {
    GAME_COLOR@ + name + ": \n\t"@ + PLAYTIME_COLOR@ + "Playtime (total): "@ + hours_text(minutes)
        + "h"@
}

/// The closing line of a report, without the line break that ends it.
pub open spec fn total_line(game_count: u32) -> Seq<char> {
    INFO_COLOR@ + "  Total game count: "@ + decimal(game_count as nat)
}

/// Renders a game: its name, then its total playtime in hours.
pub fn render_game(game: &SteamGameWithName) -> (lines: String)
    ensures
        lines@ == game_lines(game@.name, game.playtime_forever),
{
    let hours = playtime_hours(game.playtime_forever);
    let mut lines = String::from_str(GAME_COLOR);
    lines.append(game.name.as_str());
    lines.append(": \n\t");
    lines.append(PLAYTIME_COLOR);
    lines.append("Playtime (total): ");
    let ghost head = lines@;
    push_decimal(&mut lines, hours.whole);
    lines.append(".");
    lines.append(digit_text(hours.hundredths / 10));
    lines.append(digit_text(hours.hundredths % 10));
    proof {
        reveal_strlit(".");
        let hundredths = hundredths_of_hours(game.playtime_forever as int);
        assert(hundredths / 100 == hours.whole && hundredths % 100 == hours.hundredths);
        assert(lines@ =~= head + hours_text(game.playtime_forever));
    }
    lines.append("h");
    lines
}

/// Renders the closing line: the number of games that the service counted,
/// which need not be the number of games listed.
pub fn render_total(game_count: u32) -> (line: String)
    ensures
        line@ == total_line(game_count),
{
    let mut line = String::from_str(INFO_COLOR);
    line.append("  Total game count: ");
    push_decimal(&mut line, game_count as u64);
    line
}

} // verus!
