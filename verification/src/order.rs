//! The order in which the games of a report are listed.
//!
//! A list can be put in order of total playtime or of name, both ascending,
//! or left as the join made it. Sorting is stable: games that tie keep the
//! order they had.

use crate::model::{NamedGame, SteamGameWithName};
use vstd::prelude::*;
use vstd::seq_lib::seq_to_set_is_finite;
use vstd::set_lib::{lemma_int_range, lemma_subset_equality, set_int_range};
use vstd::std_specs::iter::IteratorSpec;
use vstd::string::*;
use vstd::utf8::*;

verus! {

/// What a list of games is ordered by.
#[derive(Debug, Clone, Copy, PartialEq, Eq, Structural)]
pub enum SortKey {
    /// Ascending total playtime.
    Playtime,
    /// Ascending name.
    Name,
    /// The order of the join; nothing moves.
    Default,
}

/// `a` comes before `b` or is equal to it, character by character: at the
/// first place where the two differ the smaller character decides, and a
/// name that is the beginning of another comes first.
pub open spec fn name_le(a: Seq<char>, b: Seq<char>) -> bool
    decreases a.len(),
{
    if a.len() == 0 {
        true
    } else if b.len() == 0 {
        false
    } else if a[0] == b[0] {
        name_le(a.drop_first(), b.drop_first())
    } else {
        a[0] < b[0]
    }
}

/// Under `key`, `a` may stand before `b`.
pub open spec fn in_order(key: SortKey, a: NamedGame, b: NamedGame) -> bool {
    match key {
        SortKey::Playtime => a.playtime_forever <= b.playtime_forever,
        SortKey::Name => name_le(a.name, b.name),
        SortKey::Default => true,
    }
}

/// `places` says where each game of `output` stood in `input`, and shows
/// `output` to be `input` sorted by `key` without reordering ties: it is
/// one-to-one, any two games of `output` are in order, and two that could
/// stand either way round stand as they did in `input`.
pub open spec fn arranges(
    places: Seq<int>,
    input: Seq<NamedGame>,
    output: Seq<NamedGame>,
    key: SortKey,
) -> bool {
    &&& places.len() == input.len()
    &&& output.len() == input.len()
    &&& forall|i: int| 0 <= i < places.len() ==> 0 <= #[trigger] places[i] < input.len()
    &&& forall|i: int, j: int|
        0 <= i < j < places.len() ==> #[trigger] places[i] != #[trigger] places[j]
    &&& forall|i: int| 0 <= i < output.len() ==> #[trigger] output[i] == input[places[i]]
    &&& forall|i: int, j: int|
        0 <= i < j < output.len() ==> in_order(key, #[trigger] output[i], #[trigger] output[j])
    &&& forall|i: int, j: int|
        0 <= i < j < output.len() && in_order(key, output[j], output[i]) ==> #[trigger] places[i]
            < #[trigger] places[j]
}

/// `output` is `input` sorted by `key`, ties left in their order.
pub open spec fn stably_sorted(
    input: Seq<NamedGame>,
    output: Seq<NamedGame>,
    key: SortKey,
) -> bool {
    exists|places: Seq<int>| arranges(places, input, output, key)
}

/// Of two names one comes before the other or they are equal.
pub proof fn lemma_name_le_total(a: Seq<char>, b: Seq<char>)
    ensures
        name_le(a, b) || name_le(b, a),
    decreases a.len(),
{
    if a.len() != 0 && b.len() != 0 && a[0] == b[0] {
        lemma_name_le_total(a.drop_first(), b.drop_first());
    }
}

/// The order of names is transitive.
pub proof fn lemma_name_le_transitive(a: Seq<char>, b: Seq<char>, c: Seq<char>)
    requires
        name_le(a, b),
        name_le(b, c),
    ensures
        name_le(a, c),
    decreases a.len(),
{
    if a.len() != 0 && b.len() != 0 && c.len() != 0 && a[0] == b[0] && b[0] == c[0] {
        lemma_name_le_transitive(a.drop_first(), b.drop_first(), c.drop_first());
    }
}

/// The order of names has no ties but equal names.
pub proof fn lemma_name_le_antisymmetric(a: Seq<char>, b: Seq<char>)
    requires
        name_le(a, b),
        name_le(b, a),
    ensures
        a == b,
    decreases a.len(),
{
    if a.len() != 0 && b.len() != 0 {
        lemma_name_le_antisymmetric(a.drop_first(), b.drop_first());
        assert(a =~= seq![a[0]] + a.drop_first());
        assert(b =~= seq![b[0]] + b.drop_first());
    }
    assert(a =~= b);
}

/// Under every key, of two games one may stand before the other.
pub proof fn lemma_in_order_total(key: SortKey, a: NamedGame, b: NamedGame)
    ensures
        in_order(key, a, b) || in_order(key, b, a),
{
    lemma_name_le_total(a.name, b.name);
}

/// Under every key, the order of games is transitive.
pub proof fn lemma_in_order_transitive(key: SortKey, a: NamedGame, b: NamedGame, c: NamedGame)
    requires
        in_order(key, a, b),
        in_order(key, b, c),
    ensures
        in_order(key, a, c),
{
    if key is Name {
        lemma_name_le_transitive(a.name, b.name, c.name);
    }
}

fn name_in_order(a: &str, b: &str) -> (yes: bool)
    ensures
        yes == name_le(a@, b@),
{
    broadcast use group_string_axioms;

    let mut left = a.chars();
    let mut right = b.chars();
    loop
        invariant
            name_le(a@, b@) == name_le(left.remaining(), right.remaining()),
            left.decrease() is Some,
        decreases left.decrease()->0,
    {
        match left.next() {
            None => {
                return true;
            },
            Some(x) => {
                match right.next() {
                    None => {
                        return false;
                    },
                    Some(y) => {
                        if x != y {
                            return x < y;
                        }
                    },
                }
            },
        }
    }
}

fn stands_in_order(key: SortKey, a: &SteamGameWithName, b: &SteamGameWithName) -> (yes: bool)
    ensures
        yes == in_order(key, a@, b@),
{
    match key {
        SortKey::Playtime => a.playtime_forever <= b.playtime_forever,
        SortKey::Name => name_in_order(a.name.as_str(), b.name.as_str()),
        SortKey::Default => true,
    }
}

/// While the list is being sorted: the first `sorted` games are the first
/// `sorted` games of `input` in sorted order, the rest has not moved yet.
spec fn prefix_arranged(
    places: Seq<int>,
    input: Seq<NamedGame>,
    current: Seq<NamedGame>,
    key: SortKey,
    sorted: int,
) -> bool {
    &&& places.len() == input.len()
    &&& current.len() == input.len()
    &&& forall|k: int| 0 <= k < places.len() ==> 0 <= #[trigger] places[k] < input.len()
    &&& forall|k: int| 0 <= k < sorted && k < places.len() ==> #[trigger] places[k] < sorted
    &&& forall|k: int| sorted <= k < places.len() ==> #[trigger] places[k] == k
    &&& forall|k: int, l: int|
        0 <= k < l < places.len() ==> #[trigger] places[k] != #[trigger] places[l]
    &&& forall|k: int| 0 <= k < current.len() ==> #[trigger] current[k] == input[places[k]]
    &&& forall|k: int, l: int|
        0 <= k < l < sorted && l < current.len() ==> in_order(
            key,
            #[trigger] current[k],
            #[trigger] current[l],
        )
    &&& forall|k: int, l: int|
        0 <= k < l < sorted && l < current.len() && in_order(key, current[l], current[k])
            ==> #[trigger] places[k] < #[trigger] places[l]
}

/// Where the game that ends at `k` stood before the game at `i` was moved
/// down to `j`.
spec fn moved_from(k: int, i: int, j: int) -> int {
    if k < j {
        k
    } else if k == j {
        i
    } else if k <= i {
        k - 1
    } else {
        k
    }
}

proof fn lemma_insert_keeps_arranged(
    old_places: Seq<int>,
    new_places: Seq<int>,
    input: Seq<NamedGame>,
    before: Seq<NamedGame>,
    after: Seq<NamedGame>,
    key: SortKey,
    i: int,
    j: int,
)
    requires
        0 <= j <= i < input.len(),
        prefix_arranged(old_places, input, before, key, i),
        new_places.len() == input.len(),
        after.len() == input.len(),
        forall|k: int|
            0 <= k < input.len() ==> #[trigger] new_places[k] == old_places[moved_from(k, i, j)],
        forall|k: int| 0 <= k < input.len() ==> #[trigger] after[k] == before[moved_from(k, i, j)],
        forall|k: int| j <= k < i ==> !in_order(key, #[trigger] before[k], before[i]),
        j > 0 ==> in_order(key, before[j - 1], before[i]),
    ensures
        prefix_arranged(new_places, input, after, key, i + 1),
{
    assert forall|k: int| 0 <= k <= i implies #[trigger] new_places[k] <= i by {
        let from = moved_from(k, i, j);
        if from == i {
            assert(old_places[from] == from);
        }
    }
    assert forall|k: int, l: int| 0 <= k < l < input.len() implies #[trigger] new_places[k]
        != #[trigger] new_places[l] by {
        assert(moved_from(k, i, j) != moved_from(l, i, j));
    }
    assert forall|k: int, l: int| 0 <= k < l <= i implies in_order(
        key,
        #[trigger] after[k],
        #[trigger] after[l],
    ) by {
        if l == j {
            if k < j - 1 {
                lemma_in_order_transitive(key, before[k], before[j - 1], before[i]);
            }
        } else if k == j {
            lemma_in_order_total(key, before[i], before[l - 1]);
        }
    }
    assert forall|k: int, l: int|
        0 <= k < l <= i && in_order(key, after[l], after[k]) implies #[trigger] new_places[k]
        < #[trigger] new_places[l] by {
        if l == j {
            assert(old_places[k] < i);
        }
    }
}

/// Sorts the games by `key`, ascending, and leaves games that tie in the
/// order they had. With `SortKey::Default` nothing moves.
pub fn sort_games(games: &mut Vec<SteamGameWithName>, key: SortKey)
    ensures
        stably_sorted(old(games).deep_view(), final(games).deep_view(), key),
        key is Default ==> final(games)@ == old(games)@,
{
    let ghost untouched = games@;
    let ghost input = games.deep_view();
    let ghost mut places: Seq<int> = Seq::new(games.len() as nat, |k: int| k);
    let n = games.len();
    let mut i: usize = 0;
    while i < n
        invariant
            n == games.len(),
            i <= n,
            prefix_arranged(places, input, games.deep_view(), key, i as int),
            key is Default ==> games@ == untouched,
        decreases n - i,
    {
        let mut j: usize = i;
        while j > 0 && !stands_in_order(key, &games[j - 1], &games[i])
            invariant
                j <= i < n,
                n == games.len(),
                key is Default ==> j == i,
                forall|k: int|
                    j <= k < i ==> !in_order(
                        key,
                        #[trigger] games.deep_view()[k],
                        games.deep_view()[i as int],
                    ),
            decreases j,
        {
            j -= 1;
        }
        let ghost before = games.deep_view();
        let ghost old_places = places;
        if j < i {
            let moved = games.remove(i);
            games.insert(j, moved);
            proof {
                places = Seq::new(n as nat, |k: int| old_places[moved_from(k, i as int, j as int)]);
            }
        }
        proof {
            let after = games.deep_view();
            assert forall|k: int| 0 <= k < n implies #[trigger] after[k] == before[moved_from(
                k,
                i as int,
                j as int,
            )] by {}
            lemma_insert_keeps_arranged(
                old_places,
                places,
                input,
                before,
                after,
                key,
                i as int,
                j as int,
            );
        }
        i += 1;
    }
    assert(arranges(places, input, games.deep_view(), key));
}

/// The key that a sort argument names, if it names one.
pub open spec fn sort_key_of(argument: Seq<char>) -> Option<SortKey> {
    if argument == "playtime"@ {
        Some(SortKey::Playtime)
    } else if argument == "name"@ {
        Some(SortKey::Name)
    } else if argument == "default"@ {
        Some(SortKey::Default)
    } else {
        None
    }
}

fn same_text(a: &str, b: &str) -> (same: bool)
    ensures
        same == (a@ == b@),
{
    broadcast use encode_utf8_decode_utf8;

    let left = a.as_bytes();
    let right = b.as_bytes();
    assert(decode_utf8(left@) == a@ && decode_utf8(right@) == b@);
    if left.len() != right.len() {
        return false;
    }
    let mut i: usize = 0;
    while i < left.len()
        invariant
            i <= left.len() == right.len(),
            left@ == a.spec_bytes(),
            right@ == b.spec_bytes(),
            forall|k: int| 0 <= k < i ==> left@[k] == right@[k],
        decreases left.len() - i,
    {
        if left[i] != right[i] {
            return false;
        }
        i += 1;
    }
    assert(left@ =~= right@);
    true
}

/// Reads a sort argument: `playtime`, `name` or `default`. Any other text
/// names no key.
pub fn parse_sort_key(argument: &str) -> (key: Option<SortKey>)
    ensures
        key == sort_key_of(argument@),
{
    if same_text(argument, "playtime") {
        Some(SortKey::Playtime)
    } else if same_text(argument, "name") {
        Some(SortKey::Name)
    } else if same_text(argument, "default") {
        Some(SortKey::Default)
    } else {
        None
    }
}

/// Orders the games as the sort argument asks and says whether the argument
/// was understood. An argument that names no key leaves the list as it is.
pub fn sort_by_argument(games: &mut Vec<SteamGameWithName>, argument: &str) -> (recognized: bool)
    ensures
        recognized == sort_key_of(argument@).is_some(),
        match sort_key_of(argument@) {
            Some(key) => stably_sorted(old(games).deep_view(), final(games).deep_view(), key),
            None => final(games)@ == old(games)@,
        },
        sort_key_of(argument@) == Some(SortKey::Default) ==> final(games)@ == old(games)@,
{
    match parse_sort_key(argument) {
        Some(key) => {
            sort_games(games, key);
            true
        },
        None => false,
    }
}

proof fn lemma_increasing_from_below(places: Seq<int>, i: int)
    requires
        0 <= i < places.len(),
        forall|k: int| 0 <= k < places.len() ==> 0 <= #[trigger] places[k] < places.len(),
        forall|k: int, l: int|
            0 <= k < l < places.len() ==> #[trigger] places[k] < #[trigger] places[l],
    ensures
        places[i] >= i,
    decreases i,
{
    if i > 0 {
        lemma_increasing_from_below(places, i - 1);
        assert(places[i - 1] < places[i]);
    }
}

proof fn lemma_increasing_from_above(places: Seq<int>, i: int)
    requires
        0 <= i < places.len(),
        forall|k: int| 0 <= k < places.len() ==> 0 <= #[trigger] places[k] < places.len(),
        forall|k: int, l: int|
            0 <= k < l < places.len() ==> #[trigger] places[k] < #[trigger] places[l],
    ensures
        places[i] <= i,
    decreases places.len() - i,
{
    if i + 1 < places.len() {
        lemma_increasing_from_above(places, i + 1);
        assert(places[i] < places[i + 1]);
    }
}

/// A sorted list is in order from each game to the next: by playtime the
/// total playtime never falls, by name no name comes before its
/// predecessor. It has as many games as it had before.
pub proof fn lemma_sorted_neighbours(input: Seq<NamedGame>, output: Seq<NamedGame>, key: SortKey)
    requires
        stably_sorted(input, output, key),
    ensures
        output.len() == input.len(),
        forall|i: int|
            0 <= i && i + 1 < output.len() ==> in_order(key, #[trigger] output[i], output[i + 1]),
        key is Playtime ==> forall|i: int|
            0 <= i && i + 1 < output.len() ==> (#[trigger] output[i]).playtime_forever <= output[i
                + 1].playtime_forever,
        key is Name ==> forall|i: int|
            0 <= i && i + 1 < output.len() ==> name_le(
                (#[trigger] output[i]).name,
                output[i + 1].name,
            ),
{
}

proof fn lemma_places_reach_all(places: Seq<int>, target: int)
    requires
        forall|k: int| 0 <= k < places.len() ==> 0 <= #[trigger] places[k] < places.len(),
        forall|k: int, l: int|
            0 <= k < l < places.len() ==> #[trigger] places[k] != #[trigger] places[l],
        0 <= target < places.len(),
    ensures
        exists|k: int| 0 <= k < places.len() && places[k] == target,
{
    let n = places.len() as int;
    assert forall|k: int, l: int| 0 <= k < n && 0 <= l < n && k != l implies places[k]
        != places[l] by {
        if k < l {
            assert(places[k] != places[l]);
        } else {
            assert(places[l] != places[k]);
        }
    }
    assert(places.no_duplicates());
    places.unique_seq_to_set();
    lemma_int_range(0, n);
    seq_to_set_is_finite(places);
    assert(places.to_set().subset_of(set_int_range(0, n))) by {
        assert forall|v: int| places.to_set().contains(v) implies set_int_range(0, n).contains(
            v,
        ) by {
            let k = choose|k: int| 0 <= k < places.len() && places[k] == v;
            assert(0 <= places[k] < n);
        }
    }
    lemma_subset_equality(places.to_set(), set_int_range(0, n));
    assert(set_int_range(0, n).contains(target));
    assert(places.contains(target));
}

/// Every game of the input stands in the sorted list, and nothing else.
pub proof fn lemma_sorted_keeps_games(input: Seq<NamedGame>, output: Seq<NamedGame>, key: SortKey)
    requires
        stably_sorted(input, output, key),
    ensures
        forall|i: int| 0 <= i < output.len() ==> input.contains(#[trigger] output[i]),
        forall|i: int| 0 <= i < input.len() ==> output.contains(#[trigger] input[i]),
{
    let places = choose|places: Seq<int>| arranges(places, input, output, key);
    assert forall|i: int| 0 <= i < output.len() implies input.contains(#[trigger] output[i]) by {
        assert(input[places[i]] == output[i]);
    }
    assert forall|i: int| 0 <= i < input.len() implies output.contains(#[trigger] input[i]) by {
        lemma_places_reach_all(places, i);
        let k = choose|k: int| 0 <= k < places.len() && places[k] == i;
        assert(output[k] == input[i]);
    }
}

proof fn lemma_same_places(
    first_places: Seq<int>,
    second_places: Seq<int>,
    input: Seq<NamedGame>,
    first: Seq<NamedGame>,
    second: Seq<NamedGame>,
    key: SortKey,
    upto: int,
)
    requires
        arranges(first_places, input, first, key),
        arranges(second_places, input, second, key),
        0 <= upto <= input.len(),
    ensures
        forall|k: int| 0 <= k < upto ==> first_places[k] == second_places[k],
    decreases upto,
{
    if upto > 0 {
        lemma_same_places(first_places, second_places, input, first, second, key, upto - 1);
        let t = upto - 1;
        let a = first_places[t];
        let b = second_places[t];
        if a != b {
            lemma_places_reach_all(second_places, a);
            let s = choose|s: int| 0 <= s < second_places.len() && second_places[s] == a;
            lemma_places_reach_all(first_places, b);
            let r = choose|r: int| 0 <= r < first_places.len() && first_places[r] == b;
            if s < t {
                assert(first_places[s] != first_places[t]);
            }
            if r < t {
                assert(second_places[r] != second_places[t]);
            }
            assert(t < s && t < r);
            assert(first[t] == input[a] && first[r] == input[b]);
            assert(second[t] == input[b] && second[s] == input[a]);
            assert(in_order(key, first[t], first[r]));
            assert(in_order(key, second[t], second[s]));
            assert(first_places[t] < first_places[r]);
            assert(second_places[t] < second_places[s]);
        }
    }
}

/// The input and the key determine the sorted list: two lists that are
/// both the input sorted by the key, ties in their order, are the same.
pub proof fn lemma_stably_sorted_unique(
    input: Seq<NamedGame>,
    first: Seq<NamedGame>,
    second: Seq<NamedGame>,
    key: SortKey,
)
    requires
        stably_sorted(input, first, key),
        stably_sorted(input, second, key),
    ensures
        first == second,
{
    let first_places = choose|places: Seq<int>| arranges(places, input, first, key);
    let second_places = choose|places: Seq<int>| arranges(places, input, second, key);
    lemma_same_places(first_places, second_places, input, first, second, key, input.len() as int);
    assert forall|k: int| 0 <= k < first.len() implies first[k] == second[k] by {
        assert(first[k] == input[first_places[k]]);
        assert(second[k] == input[second_places[k]]);
    }
    assert(first =~= second);
}

/// The default order is the order of the input: nothing moves.
pub proof fn lemma_default_keeps_order(input: Seq<NamedGame>, output: Seq<NamedGame>)
    requires
        stably_sorted(input, output, SortKey::Default),
    ensures
        output == input,
{
    let places = choose|places: Seq<int>| arranges(places, input, output, SortKey::Default);
    assert forall|i: int| 0 <= i < output.len() implies output[i] == input[i] by {
        lemma_increasing_from_below(places, i);
        lemma_increasing_from_above(places, i);
    }
    assert(output =~= input);
}

} // verus!
