//! Reading a round line: its game part and its player part, token by token.
//!
//! A round line is `<command> <game part> <player> <player> ...`. The game
//! part is a list of tokens between commas: the game, what was announced, and
//! at most one number. Each player is a name, then tokens between commas:
//! what befell the player, and numbers. Names of games and notes are read
//! without regard to case.

use vstd::prelude::*;

use crate::games::tarok::enums::{
    TarokError, TarokGame, TarokGameAttribute, TarokGameInput, TarokPlayerAttibute,
    TarokPlayerInput,
};
use crate::models::user::{position, position_from, PlayerDirectory, User};
use crate::text::{
    chars_of, parse_chars_i32, parse_i32, reads_as, split_fields, split_on, split_words, texts,
    to_uppercase, uppercase, words,
};

verus! {

/// The game that an upper-case name stands for.
pub open spec fn game_of_name(name: Seq<char>) -> Option<TarokGame> {
    if name == "I3"@ {
        Some(TarokGame::I3)
    } else if name == "I2"@ {
        Some(TarokGame::I2)
    } else if name == "I1"@ {
        Some(TarokGame::I1)
    } else if name == "S3"@ {
        Some(TarokGame::S3)
    } else if name == "S2"@ {
        Some(TarokGame::S2)
    } else if name == "S1"@ {
        Some(TarokGame::S1)
    } else if name == "SB"@ {
        Some(TarokGame::SB)
    } else if name == "KL"@ {
        Some(TarokGame::KL)
    } else if name == "B"@ {
        Some(TarokGame::B)
    } else if name == "P"@ {
        Some(TarokGame::P)
    } else if name == "BVI3"@ {
        Some(TarokGame::BVI3)
    } else if name == "BVI2"@ {
        Some(TarokGame::BVI2)
    } else if name == "BVI1"@ {
        Some(TarokGame::BVI1)
    } else if name == "BVS3"@ {
        Some(TarokGame::BVS3)
    } else if name == "BVS2"@ {
        Some(TarokGame::BVS2)
    } else if name == "BVS1"@ {
        Some(TarokGame::BVS1)
    } else if name == "BVSB"@ {
        Some(TarokGame::BVSB)
    } else {
        None
    }
}

/// The announcement that an upper-case name stands for.
pub open spec fn game_attribute_of_name(name: Seq<char>) -> Option<TarokGameAttribute> {
    if name == "ZP"@ {
        Some(TarokGameAttribute::ZP)
    } else if name == "ZK"@ {
        Some(TarokGameAttribute::ZK)
    } else if name == "V"@ {
        Some(TarokGameAttribute::V)
    } else if name == "T"@ {
        Some(TarokGameAttribute::T)
    } else if name == "K"@ {
        Some(TarokGameAttribute::K)
    } else if name == "NZP"@ {
        Some(TarokGameAttribute::NZP)
    } else if name == "NZK"@ {
        Some(TarokGameAttribute::NZK)
    } else if name == "NV"@ {
        Some(TarokGameAttribute::NV)
    } else if name == "NT"@ {
        Some(TarokGameAttribute::NT)
    } else if name == "NK"@ {
        Some(TarokGameAttribute::NK)
    } else {
        None
    }
}

/// The note on a player that an upper-case name stands for. The two roles,
/// `Ig` and `Sl`, are given by the rules and cannot be written in a round.
pub open spec fn player_attribute_of_name(name: Seq<char>) -> Option<TarokPlayerAttibute> {
    if name == "M"@ {
        Some(TarokPlayerAttibute::M)
    } else if name == "R"@ {
        Some(TarokPlayerAttibute::R)
    } else if name == "T"@ {
        Some(TarokPlayerAttibute::T)
    } else {
        None
    }
}

/// Reads an upper-case name as a game.
pub fn game_from_name(name: &Vec<char>) -> (r: Option<TarokGame>)
    ensures
        r == game_of_name(name@),
{
    if reads_as(name, "I3") {
        Some(TarokGame::I3)
    } else if reads_as(name, "I2") {
        Some(TarokGame::I2)
    } else if reads_as(name, "I1") {
        Some(TarokGame::I1)
    } else if reads_as(name, "S3") {
        Some(TarokGame::S3)
    } else if reads_as(name, "S2") {
        Some(TarokGame::S2)
    } else if reads_as(name, "S1") {
        Some(TarokGame::S1)
    } else if reads_as(name, "SB") {
        Some(TarokGame::SB)
    } else if reads_as(name, "KL") {
        Some(TarokGame::KL)
    } else if reads_as(name, "B") {
        Some(TarokGame::B)
    } else if reads_as(name, "P") {
        Some(TarokGame::P)
    } else if reads_as(name, "BVI3") {
        Some(TarokGame::BVI3)
    } else if reads_as(name, "BVI2") {
        Some(TarokGame::BVI2)
    } else if reads_as(name, "BVI1") {
        Some(TarokGame::BVI1)
    } else if reads_as(name, "BVS3") {
        Some(TarokGame::BVS3)
    } else if reads_as(name, "BVS2") {
        Some(TarokGame::BVS2)
    } else if reads_as(name, "BVS1") {
        Some(TarokGame::BVS1)
    } else if reads_as(name, "BVSB") {
        Some(TarokGame::BVSB)
    } else {
        None
    }
}

/// Reads an upper-case name as an announcement.
pub fn game_attribute_from_name(name: &Vec<char>) -> (r: Option<TarokGameAttribute>)
    ensures
        r == game_attribute_of_name(name@),
{
    if reads_as(name, "ZP") {
        Some(TarokGameAttribute::ZP)
    } else if reads_as(name, "ZK") {
        Some(TarokGameAttribute::ZK)
    } else if reads_as(name, "V") {
        Some(TarokGameAttribute::V)
    } else if reads_as(name, "T") {
        Some(TarokGameAttribute::T)
    } else if reads_as(name, "K") {
        Some(TarokGameAttribute::K)
    } else if reads_as(name, "NZP") {
        Some(TarokGameAttribute::NZP)
    } else if reads_as(name, "NZK") {
        Some(TarokGameAttribute::NZK)
    } else if reads_as(name, "NV") {
        Some(TarokGameAttribute::NV)
    } else if reads_as(name, "NT") {
        Some(TarokGameAttribute::NT)
    } else if reads_as(name, "NK") {
        Some(TarokGameAttribute::NK)
    } else {
        None
    }
}

/// Reads an upper-case name as a note on a player.
pub fn player_attribute_from_name(name: &Vec<char>) -> (r: Option<TarokPlayerAttibute>)
    ensures
        r == player_attribute_of_name(name@),
{
    if reads_as(name, "M") {
        Some(TarokPlayerAttibute::M)
    } else if reads_as(name, "R") {
        Some(TarokPlayerAttibute::R)
    } else if reads_as(name, "T") {
        Some(TarokPlayerAttibute::T)
    } else {
        None
    }
}

/// The game that a token names, in any case.
pub open spec fn game_option(token: Seq<char>) -> Option<TarokGame> {
    game_of_name(uppercase(token))
}

/// The announcement that a token names, in any case.
pub open spec fn attribute_option(token: Seq<char>) -> Option<TarokGameAttribute> {
    game_attribute_of_name(uppercase(token))
}

/// The note on a player that a token names, in any case.
pub open spec fn player_attribute_option(token: Seq<char>) -> Option<TarokPlayerAttibute> {
    player_attribute_of_name(uppercase(token))
}

/// Reads a token as a game.
pub fn parse_game_option_fragment(partial_fragment: &Vec<char>) -> (r: Option<TarokGame>)
    ensures
        r == game_option(partial_fragment@),
{
    let name = to_uppercase(partial_fragment);
    game_from_name(&name)
}

/// Reads a token as an announcement.
pub fn parse_attribute_option_fragment(partial_fragment: &Vec<char>) -> (r: Option<
    TarokGameAttribute,
>)
    ensures
        r == attribute_option(partial_fragment@),
{
    let name = to_uppercase(partial_fragment);
    game_attribute_from_name(&name)
}

/// Reads a token as a note on a player.
pub fn parse_player_attribute_fragment(partial_fragment: &Vec<char>) -> (r: Option<
    TarokPlayerAttibute,
>)
    ensures
        r == player_attribute_option(partial_fragment@),
{
    let name = to_uppercase(partial_fragment);
    player_attribute_from_name(&name)
}

/// Reads a token as a number of points.
pub fn parse_diff_option_fragment(partial_fragment: &Vec<char>) -> (r: Option<i32>)
    ensures
        r == parse_i32(partial_fragment@),
{
    parse_chars_i32(partial_fragment)
}

/// Whether a game stands among the tokens read so far.
pub open spec fn holds_game(inputs: Seq<TarokGameInput>) -> bool {
    exists|i: int| 0 <= i < inputs.len() && (#[trigger] inputs[i]) is TarokGame
}

/// Whether a number stands among the tokens read so far.
pub open spec fn holds_diff(inputs: Seq<TarokGameInput>) -> bool {
    exists|i: int| 0 <= i < inputs.len() && (#[trigger] inputs[i]) is TarokGameDiff
}

/// What a token of the game part is read as, after the tokens `before`: a
/// game, unless one was read already; else an announcement; else a number,
/// unless one was read already. `None` where it is none of these.
pub open spec fn next_game_input(before: Seq<TarokGameInput>, token: Seq<char>) -> Option<
    TarokGameInput,
> {
    if !holds_game(before) && game_option(token) is Some {
        Some(TarokGameInput::TarokGame(game_option(token)->0))
    } else if attribute_option(token) is Some {
        Some(TarokGameInput::TarokGameAttribute(attribute_option(token)->0))
    } else if !holds_diff(before) && parse_i32(token) is Some {
        Some(TarokGameInput::TarokGameDiff(parse_i32(token)->0))
    } else {
        None
    }
}

/// The tokens of a game part, read one after the other; `None` where one of
/// them cannot be read.
pub open spec fn game_inputs(tokens: Seq<Seq<char>>) -> Option<Seq<TarokGameInput>>
    decreases tokens.len(),
{
    if tokens.len() == 0 {
        Some(Seq::empty())
    } else {
        match game_inputs(tokens.drop_last()) {
            None => None,
            Some(before) => match next_game_input(before, tokens.last()) {
                None => None,
                Some(input) => Some(before.push(input)),
            },
        }
    }
}

/// Whether one of the tokens names a game.
pub open spec fn names_game(tokens: Seq<Seq<char>>) -> bool {
    exists|i: int| 0 <= i < tokens.len() && game_option(#[trigger] tokens[i]) is Some
}

/// What a game part resolves to: its tokens, where one of them names a game
/// and each can be read.
pub open spec fn resolve_game_fragment(fragment: Seq<char>) -> Result<
    Seq<TarokGameInput>,
    TarokError,
> {
    let tokens = split_on(fragment, ',');
    if !names_game(tokens) {
        Err(TarokError::NoGameSpecified)
    } else {
        match game_inputs(tokens) {
            None => Err(TarokError::UnrecognizedToken),
            Some(inputs) => Ok(inputs),
        }
    }
}

/// Tokens that were read are as many as there were, and hold no two games and
/// no two numbers.
pub proof fn lemma_game_inputs_shape(tokens: Seq<Seq<char>>)
    requires
        game_inputs(tokens) is Some,
    ensures
        game_inputs(tokens)->0.len() == tokens.len(),
        forall|i: int, j: int|
            #![trigger game_inputs(tokens)->0[i], game_inputs(tokens)->0[j]]
            0 <= i < j < tokens.len() ==> !(game_inputs(tokens)->0[i] is TarokGame && game_inputs(
                tokens,
            )->0[j] is TarokGame) && !(game_inputs(tokens)->0[i] is TarokGameDiff && game_inputs(
                tokens,
            )->0[j] is TarokGameDiff),
    decreases tokens.len(),
{
    if tokens.len() > 0 {
        lemma_game_inputs_shape(tokens.drop_last());
        let before = game_inputs(tokens.drop_last())->0;
        let all = game_inputs(tokens)->0;
        assert forall|i: int, j: int| 0 <= i < j < tokens.len() implies !(all[i] is TarokGame
            && all[j] is TarokGame) && !(all[i] is TarokGameDiff && all[j] is TarokGameDiff) by {
            if j < tokens.len() - 1 {
                assert(all[i] == before[i] && all[j] == before[j]);
            } else {
                assert(all[i] == before[i]);
            }
        }
    }
}

/// Where one of the tokens names a game and all were read, a game stands
/// among what was read.
pub proof fn lemma_game_inputs_hold_game(tokens: Seq<Seq<char>>)
    requires
        game_inputs(tokens) is Some,
        names_game(tokens),
    ensures
        holds_game(game_inputs(tokens)->0),
    decreases tokens.len(),
{
    let all = game_inputs(tokens)->0;
    let before = game_inputs(tokens.drop_last())->0;
    let k = choose|k: int| 0 <= k < tokens.len() && game_option(#[trigger] tokens[k]) is Some;
    let input = next_game_input(before, tokens.last())->0;
    assert(all == before.push(input));
    if k < tokens.len() - 1 {
        assert(tokens.drop_last()[k] == tokens[k]);
        lemma_game_inputs_hold_game(tokens.drop_last());
        let i = choose|i: int| 0 <= i < before.len() && (#[trigger] before[i]) is TarokGame;
        assert(all[i] == before[i]);
    } else if holds_game(before) {
        let i = choose|i: int| 0 <= i < before.len() && (#[trigger] before[i]) is TarokGame;
        assert(all[i] == before[i]);
    } else {
        assert(tokens[k] == tokens.last());
        assert(all[all.len() - 1] == input);
        assert(all[all.len() - 1] is TarokGame);
    }
}

/// What a game part resolves to holds exactly one game and at most one
/// number.
pub proof fn lemma_resolved_game_fragment(fragment: Seq<char>)
    requires
        resolve_game_fragment(fragment) is Ok,
    ensures
        ({
            let inputs = resolve_game_fragment(fragment)->Ok_0;
            &&& exists|i: int|
                0 <= i < inputs.len() && (#[trigger] inputs[i]) is TarokGame && forall|j: int|
                    0 <= j < inputs.len() && j != i ==> !((#[trigger] inputs[j]) is TarokGame)
            &&& forall|i: int, j: int|
                #![trigger inputs[i], inputs[j]]
                0 <= i < j < inputs.len() ==> !(inputs[i] is TarokGameDiff
                    && inputs[j] is TarokGameDiff)
        }),
{
    let tokens = split_on(fragment, ',');
    let inputs = resolve_game_fragment(fragment)->Ok_0;
    lemma_game_inputs_shape(tokens);
    lemma_game_inputs_hold_game(tokens);
    let i = choose|i: int| 0 <= i < inputs.len() && (#[trigger] inputs[i]) is TarokGame;
    assert forall|j: int| 0 <= j < inputs.len() && j != i implies !((#[trigger] inputs[j])
        is TarokGame) by {
        if j < i {
            assert(!(inputs[j] is TarokGame && inputs[i] is TarokGame));
        } else {
            assert(!(inputs[i] is TarokGame && inputs[j] is TarokGame));
        }
    }
}

/// Reads the tokens of a game part.
pub fn resolve_game_tokens(fragment: &Vec<char>) -> (r: Result<Vec<TarokGameInput>, TarokError>)
    ensures
        match resolve_game_fragment(fragment@) {
            Ok(inputs) => r is Ok && r->Ok_0@ == inputs,
            Err(e) => r == Err::<Vec<TarokGameInput>, TarokError>(e),
        },
{
    let tokens = split_fields(fragment, ',');
    let ghost all = split_on(fragment@, ',');
    let mut named = false;
    let mut k: usize = 0;
    while k < tokens.len()
        invariant
            k <= tokens.len(),
            texts(tokens@) == all,
            all == split_on(fragment@, ','),
            named == exists|i: int| 0 <= i < k && game_option(#[trigger] all[i]) is Some,
        decreases tokens.len() - k,
    {
        assert(all[k as int] == tokens@[k as int]@);
        if parse_game_option_fragment(&tokens[k]).is_some() {
            named = true;
        }
        k += 1;
    }
    if !named {
        return Err(TarokError::NoGameSpecified);
    }
    let mut inputs: Vec<TarokGameInput> = Vec::new();
    let mut game_found = false;
    let mut game_diff_found = false;
    let mut k: usize = 0;
    assert(all.take(0) == Seq::<Seq<char>>::empty());
    while k < tokens.len()
        invariant
            k <= tokens.len(),
            texts(tokens@) == all,
            all == split_on(fragment@, ','),
            inputs.len() == k,
            game_inputs(all.take(k as int)) == Some(inputs@),
            game_found == holds_game(inputs@),
            game_diff_found == holds_diff(inputs@),
            names_game(all),
        decreases tokens.len() - k,
    {
        assert(all[k as int] == tokens@[k as int]@);
        assert(all.take(k + 1).drop_last() == all.take(k as int));
        let mut game_option = parse_game_option_fragment(&tokens[k]);
        let attribute_option = parse_attribute_option_fragment(&tokens[k]);
        let mut diff_option = parse_diff_option_fragment(&tokens[k]);
        if game_found {
            game_option = None;
        }
        if game_diff_found {
            diff_option = None;
        }
        let ghost before = inputs@;
        let input = match (game_option, attribute_option, diff_option) {
            (Some(game), _, _) => TarokGameInput::TarokGame(game),
            (None, Some(attribute), _) => TarokGameInput::TarokGameAttribute(attribute),
            (None, None, Some(diff)) => TarokGameInput::TarokGameDiff(diff),
            (None, None, None) => {
                proof {
                    assert(all.take(k + 1).last() == all[k as int]);
                    assert(next_game_input(inputs@, all[k as int]) is None);
                    assert(game_inputs(all.take(k + 1)) is None);
                    lemma_game_inputs_fail(all, k + 1);
                }
                return Err(TarokError::UnrecognizedToken);
            },
        };
        inputs.push(input);
        proof {
            assert(all.take(k + 1).last() == all[k as int]);
            assert(next_game_input(before, all[k as int]) == Some(input));
            assert(inputs@[k as int] == input);
            assert(forall|i: int| 0 <= i < before.len() ==> inputs@[i] == before[i]);
            if input is TarokGame {
                assert(holds_game(inputs@));
            } else if holds_game(inputs@) {
                let i = choose|i: int| 0 <= i < inputs@.len() && (#[trigger] inputs@[i]) is TarokGame;
                assert(before[i] is TarokGame);
            } else if holds_game(before) {
                let i = choose|i: int| 0 <= i < before.len() && (#[trigger] before[i]) is TarokGame;
                assert(inputs@[i] is TarokGame);
            }
            if input is TarokGameDiff {
                assert(holds_diff(inputs@));
            } else if holds_diff(inputs@) {
                let i = choose|i: int|
                    0 <= i < inputs@.len() && (#[trigger] inputs@[i]) is TarokGameDiff;
                assert(before[i] is TarokGameDiff);
            } else if holds_diff(before) {
                let i = choose|i: int|
                    0 <= i < before.len() && (#[trigger] before[i]) is TarokGameDiff;
                assert(inputs@[i] is TarokGameDiff);
            }
        }
        match input {
            TarokGameInput::TarokGame(_) => {
                game_found = true;
            },
            TarokGameInput::TarokGameDiff(_) => {
                game_diff_found = true;
            },
            TarokGameInput::TarokGameAttribute(_) => {},
        }
        k += 1;
    }
    assert(all.take(tokens.len() as int) == all);
    Ok(inputs)
}

/// Where a prefix of the tokens cannot be read, the whole cannot.
proof fn lemma_game_inputs_fail(tokens: Seq<Seq<char>>, n: int)
    requires
        0 <= n <= tokens.len(),
        game_inputs(tokens.take(n)) is None,
    ensures
        game_inputs(tokens) is None,
    decreases tokens.len(),
{
    if n < tokens.len() {
        assert(tokens.drop_last().take(n) == tokens.take(n));
        lemma_game_inputs_fail(tokens.drop_last(), n);
    } else {
        assert(tokens.take(n) == tokens);
    }
}

/// What a token said of a player is read as: a number, else a note.
/// `None` where it is neither.
pub open spec fn player_input(token: Seq<char>) -> Option<TarokPlayerInput> {
    if parse_i32(token) is Some {
        Some(TarokPlayerInput::PlayerDiff(parse_i32(token)->0))
    } else if player_attribute_option(token) is Some {
        Some(TarokPlayerInput::PlayerAttribute(player_attribute_option(token)->0))
    } else {
        None
    }
}

/// The tokens said of a player, read one after the other; `None` where one of
/// them cannot be read.
pub open spec fn player_inputs(tokens: Seq<Seq<char>>) -> Option<Seq<TarokPlayerInput>>
    decreases tokens.len(),
{
    if tokens.len() == 0 {
        Some(Seq::empty())
    } else {
        match player_inputs(tokens.drop_last()) {
            None => None,
            Some(before) => match player_input(tokens.last()) {
                None => None,
                Some(input) => Some(before.push(input)),
            },
        }
    }
}

/// The player that a group of the player part names: its first field, in
/// upper case, as the directory resolves it.
pub open spec fn group_user(group: Seq<char>, directory: PlayerDirectory) -> Option<User> {
    directory.resolve(uppercase(split_on(group, ',')[0]))
}

/// What a group of the player part says of its player: its fields after the
/// name.
pub open spec fn group_inputs(group: Seq<char>) -> Option<Seq<TarokPlayerInput>> {
    player_inputs(split_on(group, ',').drop_first())
}

/// The players that the groups name, group by group; `None` where the
/// directory does not know one of them.
pub open spec fn listed_users(groups: Seq<Seq<char>>, directory: PlayerDirectory) -> Option<
    Seq<User>,
>
    decreases groups.len(),
{
    if groups.len() == 0 {
        Some(Seq::empty())
    } else {
        match listed_users(groups.drop_last(), directory) {
            None => None,
            Some(before) => match group_user(groups.last(), directory) {
                None => None,
                Some(user) => Some(before.push(user)),
            },
        }
    }
}

/// What the groups say of their players, group by group; `None` where a token
/// cannot be read.
pub open spec fn listed_inputs(groups: Seq<Seq<char>>) -> Option<Seq<Seq<TarokPlayerInput>>>
    decreases groups.len(),
{
    if groups.len() == 0 {
        Some(Seq::empty())
    } else {
        match listed_inputs(groups.drop_last()) {
            None => None,
            Some(before) => match group_inputs(groups.last()) {
                None => None,
                Some(inputs) => Some(before.push(inputs)),
            },
        }
    }
}

/// One player of a round, with what the round says of that player.
#[derive(Debug, PartialEq, Eq)]
pub struct RoundPlayer {
    pub player: User,
    pub inputs: Vec<TarokPlayerInput>,
}

/// One player of a round as the rules see it.
pub struct RoundEntry {
    pub player: User,
    pub inputs: Seq<TarokPlayerInput>,
}

impl View for RoundPlayer {
    type V = RoundEntry;

    open spec fn view(&self) -> RoundEntry {
        RoundEntry { player: self.player, inputs: self.inputs@ }
    }
}

/// The players of a round as the rules see them.
pub open spec fn entries_of(players: Seq<RoundPlayer>) -> Seq<RoundEntry> {
    Seq::new(players.len(), |i: int| players[i]@)
}

/// The identifiers of a round's players, player by player.
pub open spec fn entry_ids(entries: Seq<RoundEntry>) -> Seq<Seq<char>> {
    Seq::new(entries.len(), |i: int| entries[i].player.id@)
}

/// Enters what a group says of a player: a player not yet entered comes last;
/// for one entered already, what was said before is replaced.
pub open spec fn put_entry(entries: Seq<RoundEntry>, user: User, inputs: Seq<TarokPlayerInput>) -> Seq<
    RoundEntry,
> {
    match position(entry_ids(entries), user.id@) {
        Some(i) => entries.update(i, RoundEntry { player: entries[i].player, inputs }),
        None => entries.push(RoundEntry { player: user, inputs }),
    }
}

/// The players of a round, each once, in the order in which they were first
/// named; of a player named more than once, the last group counts.
pub open spec fn merge_entries(users: Seq<User>, inputs: Seq<Seq<TarokPlayerInput>>) -> Seq<
    RoundEntry,
>
    decreases users.len(),
{
    if users.len() == 0 || inputs.len() == 0 {
        Seq::empty()
    } else {
        put_entry(merge_entries(users.drop_last(), inputs.drop_last()), users.last(), inputs.last())
    }
}

/// No two players of a merged round share an identifier.
pub open spec fn distinct_ids(ids: Seq<Seq<char>>) -> bool {
    forall|i: int, j: int| 0 <= i < j < ids.len() ==> #[trigger] ids[i] != #[trigger] ids[j]
}

/// Entering a player keeps the identifiers distinct.
pub proof fn lemma_put_entry_distinct(
    entries: Seq<RoundEntry>,
    user: User,
    inputs: Seq<TarokPlayerInput>,
)
    requires
        distinct_ids(entry_ids(entries)),
    ensures
        distinct_ids(entry_ids(put_entry(entries, user, inputs))),
        position(entry_ids(entries), user.id@) is Some ==> entry_ids(
            put_entry(entries, user, inputs),
        ) == entry_ids(entries),
        position(entry_ids(entries), user.id@) is None ==> entry_ids(
            put_entry(entries, user, inputs),
        ) == entry_ids(entries).push(user.id@),
{
    let ids = entry_ids(entries);
    let after = entry_ids(put_entry(entries, user, inputs));
    crate::models::user::lemma_position_from(ids, user.id@, 0);
    match position(ids, user.id@) {
        Some(i) => {
            assert(after == ids);
        },
        None => {
            assert(after == ids.push(user.id@));
            assert forall|i: int, j: int| 0 <= i < j < after.len() implies #[trigger] after[i]
                != #[trigger] after[j] by {
                if j < ids.len() {
                    assert(ids[i] != ids[j]);
                }
            }
        },
    }
}

/// The players of a merged round have distinct identifiers.
pub proof fn lemma_merge_entries_distinct(users: Seq<User>, inputs: Seq<Seq<TarokPlayerInput>>)
    ensures
        distinct_ids(entry_ids(merge_entries(users, inputs))),
    decreases users.len(),
{
    if users.len() == 0 || inputs.len() == 0 {
    } else {
        lemma_merge_entries_distinct(users.drop_last(), inputs.drop_last());
        lemma_put_entry_distinct(
            merge_entries(users.drop_last(), inputs.drop_last()),
            users.last(),
            inputs.last(),
        );
    }
}

/// The two parts of a round line: the game part, and the player part group
/// by group. `None` where either is missing.
pub open spec fn round_fragments(text: Seq<char>) -> Option<(Seq<char>, Seq<Seq<char>>)> {
    let w = words(text);
    if w.len() < 3 {
        None
    } else {
        Some((w[1], w.skip(2)))
    }
}

/// What a round line says, once read.
pub struct ParsedRound {
    pub game_attributes: Seq<TarokGameInput>,
    pub players: Seq<RoundEntry>,
}

/// What a round line reads as. A line that lacks a part is malformed; then
/// the game part is resolved, then the players' names, then what is said of
/// them; the first failure is the line's.
pub open spec fn parse_round(text: Seq<char>, directory: PlayerDirectory) -> Result<
    ParsedRound,
    TarokError,
> {
    match round_fragments(text) {
        None => Err(TarokError::MalformedRound),
        Some((game, groups)) => match resolve_game_fragment(game) {
            Err(e) => Err(e),
            Ok(game_attributes) => match listed_users(groups, directory) {
                None => Err(TarokError::UnknownPlayer),
                Some(users) => match listed_inputs(groups) {
                    None => Err(TarokError::UnrecognizedToken),
                    Some(inputs) => Ok(
                        ParsedRound { game_attributes, players: merge_entries(users, inputs) },
                    ),
                },
            },
        },
    }
}

/// The game part of a round line: its second word.
pub fn extract_round_game_fragment(message_text: &str) -> (r: Option<Vec<char>>)
    ensures
        match r {
            Some(fragment) => words(message_text@).len() >= 2 && fragment@ == words(
                message_text@,
            )[1],
            None => words(message_text@).len() < 2,
        },
{
    let text = chars_of(message_text);
    let mut w = split_words(&text);
    if w.len() < 2 {
        None
    } else {
        assert(texts(w@)[1] == w@[1]@);
        Some(w.swap_remove(1))
    }
}

/// The player part of a round line: its words from the third on, one group
/// for each player.
pub fn extract_round_player_fragment(message_text: &str) -> (r: Option<Vec<Vec<char>>>)
    ensures
        match r {
            Some(groups) => words(message_text@).len() >= 3 && texts(groups@) == words(
                message_text@,
            ).skip(2),
            None => words(message_text@).len() < 3,
        },
{
    let text = chars_of(message_text);
    let w = split_words(&text);
    if w.len() < 3 {
        None
    } else {
        Some(groups_of(w))
    }
}

/// The words of a round line from the third on.
fn groups_of(w: Vec<Vec<char>>) -> (r: Vec<Vec<char>>)
    requires
        w.len() >= 2,
    ensures
        r@ == w@.skip(2),
        texts(r@) == texts(w@).skip(2),
{
    let mut w = w;
    let ghost all = w@;
    let r = w.split_off(2);
    assert(texts(r@) == texts(all).skip(2));
    r
}

/// Resolves the player that a group of the player part names.
pub fn parse_user_from_fragment(fragment: &Vec<char>, directory: &PlayerDirectory) -> (r: Result<
    User,
    TarokError,
>)
    ensures
        match group_user(fragment@, *directory) {
            Some(user) => r == Ok::<User, TarokError>(user),
            None => r == Err::<User, TarokError>(TarokError::UnknownPlayer),
        },
{
    let fields = split_fields(fragment, ',');
    assert(texts(fields@)[0] == fields@[0]@);
    let name = to_uppercase(&fields[0]);
    match directory.get_user_by_name(&name) {
        Some(user) => Ok(user),
        None => Err(TarokError::UnknownPlayer),
    }
}

/// Resolves the players that the groups of a player part name, group by
/// group.
pub fn parse_users_from_fragment(groups: &Vec<Vec<char>>, directory: &PlayerDirectory) -> (r:
    Result<Vec<User>, TarokError>)
    ensures
        match listed_users(texts(groups@), *directory) {
            Some(users) => r is Ok && r->Ok_0@ == users,
            None => r == Err::<Vec<User>, TarokError>(TarokError::UnknownPlayer),
        },
{
    let ghost all = texts(groups@);
    let mut users: Vec<User> = Vec::new();
    let mut k: usize = 0;
    assert(all.take(0) == Seq::<Seq<char>>::empty());
    while k < groups.len()
        invariant
            k <= groups.len(),
            all == texts(groups@),
            listed_users(all.take(k as int), *directory) == Some(users@),
        decreases groups.len() - k,
    {
        assert(all[k as int] == groups@[k as int]@);
        assert(all.take(k + 1).drop_last() == all.take(k as int));
        assert(all.take(k + 1).last() == all[k as int]);
        match parse_user_from_fragment(&groups[k], directory) {
            Ok(user) => {
                users.push(user);
            },
            Err(e) => {
                proof {
                    lemma_listed_users_fail(all, *directory, k + 1);
                }
                return Err(e);
            },
        }
        k += 1;
    }
    assert(all.take(groups.len() as int) == all);
    Ok(users)
}

/// Where a prefix of the groups names an unknown player, the whole does.
proof fn lemma_listed_users_fail(groups: Seq<Seq<char>>, directory: PlayerDirectory, n: int)
    requires
        0 <= n <= groups.len(),
        listed_users(groups.take(n), directory) is None,
    ensures
        listed_users(groups, directory) is None,
    decreases groups.len(),
{
    if n < groups.len() {
        assert(groups.drop_last().take(n) == groups.take(n));
        lemma_listed_users_fail(groups.drop_last(), directory, n);
    } else {
        assert(groups.take(n) == groups);
    }
}

/// The players that a round line names, group by group.
pub fn extract_round_users(message_text: &str, directory: &PlayerDirectory) -> (r: Result<
    Vec<User>,
    TarokError,
>)
    ensures
        match round_fragments(message_text@) {
            None => r == Err::<Vec<User>, TarokError>(TarokError::MalformedRound),
            Some((_, groups)) => match listed_users(groups, *directory) {
                Some(users) => r is Ok && r->Ok_0@ == users,
                None => r == Err::<Vec<User>, TarokError>(TarokError::UnknownPlayer),
            },
        },
{
    match extract_round_player_fragment(message_text) {
        None => Err(TarokError::MalformedRound),
        Some(groups) => parse_users_from_fragment(&groups, directory),
    }
}

/// Reads what a group of the player part says of its player.
pub fn parse_player_inputs(fragment: &Vec<char>) -> (r: Result<Vec<TarokPlayerInput>, TarokError>)
    ensures
        match group_inputs(fragment@) {
            Some(inputs) => r is Ok && r->Ok_0@ == inputs,
            None => r == Err::<Vec<TarokPlayerInput>, TarokError>(TarokError::UnrecognizedToken),
        },
{
    let fields = split_fields(fragment, ',');
    let ghost tokens = split_on(fragment@, ',').drop_first();
    let mut inputs: Vec<TarokPlayerInput> = Vec::new();
    let mut k: usize = 1;
    assert(tokens.take(0) == Seq::<Seq<char>>::empty());
    while k < fields.len()
        invariant
            1 <= k <= fields.len(),
            texts(fields@) == split_on(fragment@, ','),
            tokens == split_on(fragment@, ',').drop_first(),
            player_inputs(tokens.take(k - 1)) == Some(inputs@),
        decreases fields.len() - k,
    {
        assert(tokens[k - 1] == fields@[k as int]@) by {
            assert(texts(fields@)[k as int] == fields@[k as int]@);
        }
        assert(tokens.take(k as int).drop_last() == tokens.take(k - 1));
        assert(tokens.take(k as int).last() == tokens[k - 1]);
        let attr_option = parse_player_attribute_fragment(&fields[k]);
        let diff_option = parse_diff_option_fragment(&fields[k]);
        match (attr_option, diff_option) {
            (None, None) => {
                proof {
                    lemma_player_inputs_fail(tokens, k as int);
                }
                return Err(TarokError::UnrecognizedToken);
            },
            (_, Some(diff)) => inputs.push(TarokPlayerInput::PlayerDiff(diff)),
            (Some(attr), None) => inputs.push(TarokPlayerInput::PlayerAttribute(attr)),
        }
        k += 1;
    }
    assert(tokens.take(fields.len() - 1) == tokens);
    Ok(inputs)
}

/// Where a prefix of the tokens cannot be read, the whole cannot.
proof fn lemma_player_inputs_fail(tokens: Seq<Seq<char>>, n: int)
    requires
        0 <= n <= tokens.len(),
        player_inputs(tokens.take(n)) is None,
    ensures
        player_inputs(tokens) is None,
    decreases tokens.len(),
{
    if n < tokens.len() {
        assert(tokens.drop_last().take(n) == tokens.take(n));
        lemma_player_inputs_fail(tokens.drop_last(), n);
    } else {
        assert(tokens.take(n) == tokens);
    }
}

/// Reads what the groups of a player part say of their players, group by
/// group.
pub fn parse_inputs_from_fragment(groups: &Vec<Vec<char>>) -> (r: Result<
    Vec<Vec<TarokPlayerInput>>,
    TarokError,
>)
    ensures
        match listed_inputs(texts(groups@)) {
            Some(inputs) => r is Ok && input_lists(r->Ok_0@) == inputs,
            None => r == Err::<Vec<Vec<TarokPlayerInput>>, TarokError>(
                TarokError::UnrecognizedToken,
            ),
        },
{
    let ghost all = texts(groups@);
    let mut lists: Vec<Vec<TarokPlayerInput>> = Vec::new();
    let mut k: usize = 0;
    assert(all.take(0) == Seq::<Seq<char>>::empty());
    assert(input_lists(lists@) == Seq::<Seq<TarokPlayerInput>>::empty());
    while k < groups.len()
        invariant
            k <= groups.len(),
            all == texts(groups@),
            listed_inputs(all.take(k as int)) == Some(input_lists(lists@)),
        decreases groups.len() - k,
    {
        assert(all[k as int] == groups@[k as int]@);
        assert(all.take(k + 1).drop_last() == all.take(k as int));
        assert(all.take(k + 1).last() == all[k as int]);
        match parse_player_inputs(&groups[k]) {
            Ok(inputs) => {
                assert(input_lists(lists@.push(inputs)) == input_lists(lists@).push(inputs@));
                lists.push(inputs);
            },
            Err(e) => {
                proof {
                    lemma_listed_inputs_fail(all, k + 1);
                }
                return Err(e);
            },
        }
        k += 1;
    }
    assert(all.take(groups.len() as int) == all);
    Ok(lists)
}

/// The tokens of some lists, list by list.
pub open spec fn input_lists(lists: Seq<Vec<TarokPlayerInput>>) -> Seq<Seq<TarokPlayerInput>> {
    Seq::new(lists.len(), |i: int| lists[i]@)
}

/// Where a prefix of the groups holds a token that cannot be read, the whole
/// does.
proof fn lemma_listed_inputs_fail(groups: Seq<Seq<char>>, n: int)
    requires
        0 <= n <= groups.len(),
        listed_inputs(groups.take(n)) is None,
    ensures
        listed_inputs(groups) is None,
    decreases groups.len(),
{
    if n < groups.len() {
        assert(groups.drop_last().take(n) == groups.take(n));
        lemma_listed_inputs_fail(groups.drop_last(), n);
    } else {
        assert(groups.take(n) == groups);
    }
}

/// As many players are listed as there are groups.
pub proof fn lemma_listed_users_len(groups: Seq<Seq<char>>, directory: PlayerDirectory)
    requires
        listed_users(groups, directory) is Some,
    ensures
        listed_users(groups, directory)->0.len() == groups.len(),
    decreases groups.len(),
{
    if groups.len() > 0 {
        lemma_listed_users_len(groups.drop_last(), directory);
    }
}

/// As many lists of tokens are read as there are groups.
pub proof fn lemma_listed_inputs_len(groups: Seq<Seq<char>>)
    requires
        listed_inputs(groups) is Some,
    ensures
        listed_inputs(groups)->0.len() == groups.len(),
    decreases groups.len(),
{
    if groups.len() > 0 {
        lemma_listed_inputs_len(groups.drop_last());
    }
}

/// Where a player of the given identifier stands among the round's players.
pub fn find_round_player(players: &Vec<RoundPlayer>, id: &String) -> (r: Option<usize>)
    ensures
        match r {
            Some(i) => i < players.len() && position(entry_ids(entries_of(players@)), id@) == Some(
                i as int,
            ),
            None => position(entry_ids(entries_of(players@)), id@) is None,
        },
{
    let ghost ids = entry_ids(entries_of(players@));
    let mut i: usize = 0;
    while i < players.len()
        invariant
            i <= players.len(),
            ids == entry_ids(entries_of(players@)),
            position(ids, id@) == position_from(ids, id@, i as int),
        decreases players.len() - i,
    {
        assert(ids[i as int] == players@[i as int].player.id@);
        if players[i].player.id == *id {
            return Some(i);
        }
        i += 1;
    }
    None
}

/// Puts together who was named and what was said: each player once, in the
/// order of first naming, with what the player's last group said.
fn merge_round_players(users: Vec<User>, lists: Vec<Vec<TarokPlayerInput>>) -> (r: Vec<
    RoundPlayer,
>)
    requires
        users.len() == lists.len(),
    ensures
        entries_of(r@) == merge_entries(users@, input_lists(lists@)),
{
    let mut users = users;
    let mut lists = lists;
    let ghost all_users = users@;
    let ghost all_lists = input_lists(lists@);
    let mut players: Vec<RoundPlayer> = Vec::new();
    let ghost mut k: int = 0;
    assert(all_users.take(0) == Seq::<User>::empty());
    assert(entries_of(players@) == Seq::<RoundEntry>::empty());
    assert(users@ == all_users.skip(0));
    assert(input_lists(lists@) == all_lists.skip(0));
    while users.len() > 0
        invariant
            0 <= k <= all_users.len(),
            all_users.len() == all_lists.len(),
            users.len() == lists.len(),
            users@ == all_users.skip(k),
            input_lists(lists@) == all_lists.skip(k),
            entries_of(players@) == merge_entries(all_users.take(k), all_lists.take(k)),
        decreases users.len(),
    {
        let ghost before = entries_of(players@);
        let ghost rest_lists = lists@;
        let user = users.remove(0);
        let inputs = lists.remove(0);
        proof {
            assert(user == all_users[k]);
            assert(inputs@ == all_lists[k]) by {
                assert(input_lists(rest_lists)[0] == rest_lists[0]@);
                assert(all_lists.skip(k)[0] == all_lists[k]);
            }
            assert(all_users.take(k + 1).drop_last() == all_users.take(k));
            assert(all_lists.take(k + 1).drop_last() == all_lists.take(k));
            assert(all_users.take(k + 1).last() == user);
            assert(all_lists.take(k + 1).last() == inputs@);
            assert(users@ == all_users.skip(k + 1));
            assert(input_lists(lists@) == all_lists.skip(k + 1)) by {
                assert forall|i: int| 0 <= i < lists@.len() implies input_lists(lists@)[i]
                    == all_lists.skip(k + 1)[i] by {
                    assert(lists@[i] == rest_lists[i + 1]);
                    assert(input_lists(rest_lists)[i + 1] == rest_lists[i + 1]@);
                    assert(all_lists.skip(k)[i + 1] == all_lists[k + 1 + i]);
                }
            }
        }
        match find_round_player(&players, &user.id) {
            Some(i) => {
                players[i].inputs = inputs;
                assert(entries_of(players@) == put_entry(before, user, inputs@));
            },
            None => {
                players.push(RoundPlayer { player: user, inputs });
                assert(entries_of(players@) == put_entry(before, user, inputs@));
            },
        }
        proof {
            k = k + 1;
        }
    }
    assert(all_users.take(k) == all_users);
    assert(all_lists.take(k) == all_lists);
    players
}

/// Reads a round line against a directory: the tokens of its game part, and
/// its players with what is said of each.
pub fn read_round(message_text: &str, directory: &PlayerDirectory) -> (r: Result<
    (Vec<TarokGameInput>, Vec<RoundPlayer>),
    TarokError,
>)
    ensures
        match parse_round(message_text@, *directory) {
            Ok(parsed) => r is Ok && r->Ok_0.0@ == parsed.game_attributes && entries_of(r->Ok_0.1@)
                == parsed.players,
            Err(e) => r is Err && r->Err_0 == e,
        },
{
    let text = chars_of(message_text);
    let mut w = split_words(&text);
    if w.len() < 3 {
        return Err(TarokError::MalformedRound);
    }
    assert(texts(w@)[1] == w@[1]@);
    let game_attributes = match resolve_game_tokens(&w[1]) {
        Ok(inputs) => inputs,
        Err(e) => {
            return Err(e);
        },
    };
    let groups = groups_of(w);
    let users = match parse_users_from_fragment(&groups, directory) {
        Ok(users) => users,
        Err(e) => {
            return Err(e);
        },
    };
    let lists = match parse_inputs_from_fragment(&groups) {
        Ok(lists) => lists,
        Err(e) => {
            return Err(e);
        },
    };
    proof {
        lemma_listed_users_len(texts(groups@), *directory);
        lemma_listed_inputs_len(texts(groups@));
    }
    Ok((game_attributes, merge_round_players(users, lists)))
}

/// The tokens of a round line's game part.
pub fn extract_game_attributes(text: &str) -> (r: Result<Vec<TarokGameInput>, TarokError>)
    ensures
        match round_fragments(text@) {
            None => r == Err::<Vec<TarokGameInput>, TarokError>(TarokError::MalformedRound),
            Some((game, _)) => match resolve_game_fragment(game) {
                Ok(inputs) => r is Ok && r->Ok_0@ == inputs,
                Err(e) => r == Err::<Vec<TarokGameInput>, TarokError>(e),
            },
        },
{
    let chars = chars_of(text);
    let w = split_words(&chars);
    if w.len() < 3 {
        return Err(TarokError::MalformedRound);
    }
    assert(texts(w@)[1] == w@[1]@);
    resolve_game_tokens(&w[1])
}

/// The players of a round line, each once, with what the line says of each.
pub fn extract_player_attributes(text: &str, directory: &PlayerDirectory) -> (r: Result<
    Vec<RoundPlayer>,
    TarokError,
>)
    ensures
        match round_fragments(text@) {
            None => r is Err && r->Err_0 == TarokError::MalformedRound,
            Some((_, groups)) => match listed_users(groups, *directory) {
                None => r is Err && r->Err_0 == TarokError::UnknownPlayer,
                Some(users) => match listed_inputs(groups) {
                    None => r is Err && r->Err_0 == TarokError::UnrecognizedToken,
                    Some(inputs) => r is Ok && entries_of(r->Ok_0@) == merge_entries(users, inputs),
                },
            },
        },
{
    let groups = match extract_round_player_fragment(text) {
        Some(groups) => groups,
        None => {
            return Err(TarokError::MalformedRound);
        },
    };
    let users = match parse_users_from_fragment(&groups, directory) {
        Ok(users) => users,
        Err(e) => {
            return Err(e);
        },
    };
    let lists = match parse_inputs_from_fragment(&groups) {
        Ok(lists) => lists,
        Err(e) => {
            return Err(e);
        },
    };
    proof {
        lemma_listed_users_len(texts(groups@), *directory);
        lemma_listed_inputs_len(texts(groups@));
    }
    Ok(merge_round_players(users, lists))
}

/// The names that a round line asks the directory for, in upper case and
/// group by group; none where the line lacks a part.
pub open spec fn round_names(text: Seq<char>) -> Seq<Seq<char>> {
    match round_fragments(text) {
        None => Seq::empty(),
        Some((_, groups)) => Seq::new(
            groups.len(),
            |k: int| uppercase(split_on(groups[k], ',')[0]),
        ),
    }
}

/// The names that a round line asks the directory for. A directory that was
/// told what a lookup of each of them gave resolves the line's players as
/// those lookups would.
pub fn extract_round_names(message_text: &str) -> (r: Vec<Vec<char>>)
    ensures
        texts(r@) == round_names(message_text@),
{
    let mut names: Vec<Vec<char>> = Vec::new();
    let groups = match extract_round_player_fragment(message_text) {
        Some(groups) => groups,
        None => {
            assert(texts(names@) == Seq::<Seq<char>>::empty());
            return names;
        },
    };
    let ghost all = texts(groups@);
    let mut k: usize = 0;
    while k < groups.len()
        invariant
            k <= groups.len(),
            all == texts(groups@),
            names.len() == k,
            forall|j: int| 0 <= j < k ==> (#[trigger] names[j])@ == uppercase(split_on(all[j], ',')[0]),
        decreases groups.len() - k,
    {
        assert(all[k as int] == groups@[k as int]@);
        let fields = split_fields(&groups[k], ',');
        assert(texts(fields@)[0] == fields@[0]@);
        names.push(to_uppercase(&fields[0]));
        k += 1;
    }
    assert(texts(names@) == round_names(message_text@));
    names
}

} // verus!
