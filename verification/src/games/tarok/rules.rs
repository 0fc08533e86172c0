//! The rules: what a round is worth to each of its players.
//!
//! Every game goes the same way. The tokens of the game part add up to the
//! shared points; a negative number among them means that the game was lost,
//! which takes twice the game's own worth off. The first player of the round
//! declared the game; in a team game the others supported. Where the declarer
//! holds a doubling token, the shared points are doubled and the token is
//! spent. Each player gets the shared points and the worth of what the round
//! says of that player alone. `KL` has no shared points and spends no token.

use vstd::prelude::*;

use crate::games::tarok::enums::{
    TarokError, TarokGame, TarokGameAttribute, TarokGameInput, TarokPlayerAttibute,
    TarokPlayerInput,
};
use crate::games::tarok::tokens::{entries_of, RoundEntry, RoundPlayer};

verus! {

/// What the tokens of a game part add up to.
pub open spec fn total_worth(inputs: Seq<TarokGameInput>) -> int
    decreases inputs.len(),
{
    if inputs.len() == 0 {
        0
    } else {
        total_worth(inputs.drop_last()) + inputs.last().worth()
    }
}

/// What the tokens said of a player add up to.
pub open spec fn personal_points(inputs: Seq<TarokPlayerInput>) -> int
    decreases inputs.len(),
{
    if inputs.len() == 0 {
        0
    } else {
        personal_points(inputs.drop_last()) + inputs.last().worth()
    }
}

/// Whether the game was lost: a negative number stands among the tokens.
pub open spec fn lost(inputs: Seq<TarokGameInput>) -> bool {
    exists|i: int|
        0 <= i < inputs.len() && (#[trigger] inputs[i]) is TarokGameDiff
            && inputs[i]->TarokGameDiff_0 < 0
}

/// The first game at or after `from` among the tokens.
pub open spec fn first_game_from(inputs: Seq<TarokGameInput>, from: int) -> Option<TarokGame>
    decreases inputs.len() - from,
{
    if from >= inputs.len() {
        None
    } else if inputs[from] is TarokGame {
        Some(inputs[from]->TarokGame_0)
    } else {
        first_game_from(inputs, from + 1)
    }
}

/// The game that the round was played as: the first one among the tokens.
pub open spec fn first_game(inputs: Seq<TarokGameInput>) -> Option<TarokGame> {
    first_game_from(inputs, 0)
}

/// The worth of the round's game, nothing where the tokens name none.
pub open spec fn played_worth(inputs: Seq<TarokGameInput>) -> int {
    match first_game(inputs) {
        Some(game) => game.worth(),
        None => 0,
    }
}

/// The points of the game part: what its tokens add up to, less twice the
/// game's worth where the game was lost.
pub open spec fn base_game_points(inputs: Seq<TarokGameInput>) -> int {
    if lost(inputs) {
        total_worth(inputs) - 2 * played_worth(inputs)
    } else {
        total_worth(inputs)
    }
}

/// Beyond what any round that a machine can hold adds up to, and far within
/// 128 bits.
pub open spec fn points_bound() -> int {
    0x1_0000_0000_0000_0000_0000_0000
}

/// Tokens add up to no more than 2^31 apiece.
pub proof fn lemma_total_worth_bound(inputs: Seq<TarokGameInput>)
    ensures
        -0x8000_0000 * inputs.len() <= total_worth(inputs) <= 0x8000_0000 * inputs.len(),
    decreases inputs.len(),
{
    if inputs.len() > 0 {
        lemma_total_worth_bound(inputs.drop_last());
    }
}

/// Tokens add up to no more than 2^31 apiece.
pub proof fn lemma_personal_points_bound(inputs: Seq<TarokPlayerInput>)
    ensures
        -0x8000_0000 * inputs.len() <= personal_points(inputs) <= 0x8000_0000 * inputs.len(),
    decreases inputs.len(),
{
    if inputs.len() > 0 {
        lemma_personal_points_bound(inputs.drop_last());
    }
}

/// What a game is worth before anything is added.
pub fn game_worth(g: TarokGame) -> (r: i32)
    ensures
        r == g.worth(),
{
    match g {
        TarokGame::I3 => 10,
        TarokGame::I2 => 20,
        TarokGame::I1 => 30,
        TarokGame::S3 => 40,
        TarokGame::S2 => 50,
        TarokGame::S1 => 60,
        TarokGame::SB => 80,
        TarokGame::KL => 0,
        TarokGame::B => 70,
        TarokGame::P => 60,
        TarokGame::BVI3 => 90,
        TarokGame::BVI2 => 100,
        TarokGame::BVI1 => 110,
        TarokGame::BVS3 => 120,
        TarokGame::BVS2 => 130,
        TarokGame::BVS1 => 140,
        TarokGame::BVSB => 150,
    }
}

/// What a token of the game part adds to the game's points.
pub fn attribute_worth(g_attr: &TarokGameInput) -> (r: i32)
    ensures
        r == g_attr.worth(),
{
    match g_attr {
        TarokGameInput::TarokGame(g) => game_worth(*g),
        TarokGameInput::TarokGameDiff(val) => *val,
        TarokGameInput::TarokGameAttribute(att) => match att {
            TarokGameAttribute::ZP => 10,
            TarokGameAttribute::ZK => 10,
            TarokGameAttribute::V => 150,
            TarokGameAttribute::T => 15,
            TarokGameAttribute::K => 15,
            TarokGameAttribute::NZP => 20,
            TarokGameAttribute::NZK => 20,
            TarokGameAttribute::NV => 250,
            TarokGameAttribute::NT => 30,
            TarokGameAttribute::NK => 30,
        },
    }
}

/// What a token said of a player adds to that player's points.
pub fn player_attribute_worth(attr: &TarokPlayerInput) -> (r: i32)
    ensures
        r == attr.worth(),
{
    match attr {
        TarokPlayerInput::PlayerAttribute(at) => match at {
            TarokPlayerAttibute::M => -20,
            TarokPlayerAttibute::R => 0,
            TarokPlayerAttibute::T => 0,
            TarokPlayerAttibute::Ig => 0,
            TarokPlayerAttibute::Sl => -20,
        },
        TarokPlayerInput::PlayerDiff(val) => *val,
    }
}

/// Whether the declarer of a game of this kind plays with partners.
pub fn is_team_game(g: TarokGame) -> (r: bool)
    ensures
        r == g.is_team(),
{
    match g {
        TarokGame::I3 | TarokGame::I2 | TarokGame::I1 | TarokGame::BVI3 | TarokGame::BVI2
        | TarokGame::BVI1 => true,
        _ => false,
    }
}

/// Whether a round of this game grants every known player a doubling token.
pub fn game_grants_radlc(g: TarokGame) -> (r: bool)
    ensures
        r == g.grants_radlc(),
{
    match g {
        TarokGame::S1 | TarokGame::S2 | TarokGame::S3 => false,
        _ => true,
    }
}

/// The game that a round was played as.
pub fn find_tarok_game(round_game_attributes: &Vec<TarokGameInput>) -> (r: Option<TarokGame>)
    ensures
        r == first_game(round_game_attributes@),
{
    let mut i: usize = 0;
    while i < round_game_attributes.len()
        invariant
            i <= round_game_attributes.len(),
            first_game(round_game_attributes@) == first_game_from(
                round_game_attributes@,
                i as int,
            ),
        decreases round_game_attributes.len() - i,
    {
        if let TarokGameInput::TarokGame(game) = round_game_attributes[i] {
            return Some(game);
        }
        i += 1;
    }
    None
}

/// The points of a round's game part.
pub fn calculate_base_game_points(round_game_attributes: &Vec<TarokGameInput>) -> (r: i128)
    ensures
        r == base_game_points(round_game_attributes@),
        -points_bound() < r < points_bound(),
{
    let ghost inputs = round_game_attributes@;
    let base_score: i128 = match find_tarok_game(round_game_attributes) {
        Some(game) => game_worth(game) as i128,
        None => 0,
    };
    let mut game_points: i128 = 0;
    let mut is_lost = false;
    let mut i: usize = 0;
    assert(inputs.take(0) == Seq::<TarokGameInput>::empty());
    while i < round_game_attributes.len()
        invariant
            i <= round_game_attributes.len(),
            inputs == round_game_attributes@,
            game_points == total_worth(inputs.take(i as int)),
            is_lost == lost(inputs.take(i as int)),
        decreases round_game_attributes.len() - i,
    {
        let ghost before = inputs.take(i as int);
        let ghost after = inputs.take(i + 1);
        proof {
            assert(after.drop_last() == before);
            assert(after.last() == inputs[i as int]);
            lemma_total_worth_bound(before);
            assert(0x8000_0000 * before.len() <= 0x8000_0000 * 0xffff_ffff_ffff_ffff)
                by (nonlinear_arith)
                requires
                    before.len() <= 0xffff_ffff_ffff_ffff,
            ;
            if lost(after) {
                let j = choose|j: int|
                    0 <= j < after.len() && (#[trigger] after[j]) is TarokGameDiff
                        && after[j]->TarokGameDiff_0 < 0;
                if j < i {
                    assert(before[j] is TarokGameDiff && before[j]->TarokGameDiff_0 < 0);
                }
            }
            if lost(before) {
                let j = choose|j: int|
                    0 <= j < before.len() && (#[trigger] before[j]) is TarokGameDiff
                        && before[j]->TarokGameDiff_0 < 0;
                assert(after[j] is TarokGameDiff && after[j]->TarokGameDiff_0 < 0);
            }
        }
        game_points = game_points + attribute_worth(&round_game_attributes[i]) as i128;
        if let TarokGameInput::TarokGameDiff(val) = round_game_attributes[i] {
            if val < 0 {
                is_lost = true;
                assert(after[i as int] is TarokGameDiff && after[i as int]->TarokGameDiff_0 < 0);
            }
        }
        i += 1;
    }
    proof {
        assert(inputs.take(round_game_attributes.len() as int) == inputs);
        lemma_total_worth_bound(inputs);
        assert(0x8000_0000 * inputs.len() <= 0x8000_0000 * 0xffff_ffff_ffff_ffff)
            by (nonlinear_arith)
            requires
                inputs.len() <= 0xffff_ffff_ffff_ffff,
        ;
    }
    if is_lost {
        game_points = game_points - 2 * base_score;
    }
    game_points
}

/// What the tokens said of a player add up to.
pub fn calculate_personal_points(inputs: &Vec<TarokPlayerInput>) -> (r: i128)
    ensures
        r == personal_points(inputs@),
        -points_bound() < r < points_bound(),
{
    let mut points: i128 = 0;
    let mut i: usize = 0;
    assert(inputs@.take(0) == Seq::<TarokPlayerInput>::empty());
    while i < inputs.len()
        invariant
            i <= inputs.len(),
            points == personal_points(inputs@.take(i as int)),
        decreases inputs.len() - i,
    {
        proof {
            assert(inputs@.take(i + 1).drop_last() == inputs@.take(i as int));
            assert(inputs@.take(i + 1).last() == inputs@[i as int]);
            lemma_personal_points_bound(inputs@.take(i as int));
            assert(0x8000_0000 * inputs@.take(i as int).len() <= 0x8000_0000
                * 0xffff_ffff_ffff_ffff) by (nonlinear_arith)
                requires
                    inputs@.take(i as int).len() <= 0xffff_ffff_ffff_ffff,
            ;
        }
        points = points + player_attribute_worth(&inputs[i]) as i128;
        i += 1;
    }
    proof {
        assert(inputs@.take(inputs.len() as int) == inputs@);
        lemma_personal_points_bound(inputs@);
        assert(0x8000_0000 * inputs@.len() <= 0x8000_0000 * 0xffff_ffff_ffff_ffff)
            by (nonlinear_arith)
            requires
                inputs@.len() <= 0xffff_ffff_ffff_ffff,
        ;
    }
    points
}

/// What is said of the player at place `i` of a round once the roles are
/// given: the first player declared the game, and in a team game the others
/// supported.
pub open spec fn role_inputs(inputs: Seq<TarokPlayerInput>, i: int, game: TarokGame) -> Seq<
    TarokPlayerInput,
> {
    if i == 0 {
        inputs.push(TarokPlayerInput::PlayerAttribute(TarokPlayerAttibute::Ig))
    } else if game.is_team() {
        inputs.push(TarokPlayerInput::PlayerAttribute(TarokPlayerAttibute::Sl))
    } else {
        inputs
    }
}

/// The players of a round with their roles.
pub open spec fn with_roles(entries: Seq<RoundEntry>, game: TarokGame) -> Seq<RoundEntry> {
    Seq::new(
        entries.len(),
        |i: int| RoundEntry { player: entries[i].player, inputs: role_inputs(entries[i].inputs, i, game) },
    )
}

/// The points that all players of a round share: those of the game part,
/// twice over where the declarer spends a doubling token; none in `KL`.
pub open spec fn shared_points(
    game_inputs: Seq<TarokGameInput>,
    game: TarokGame,
    radlc_available: bool,
) -> int {
    if !game.has_base_points() {
        0
    } else if radlc_available {
        2 * base_game_points(game_inputs)
    } else {
        base_game_points(game_inputs)
    }
}

/// Whether a number of points fits a sheet's entry.
pub open spec fn fits_i32(points: int) -> bool {
    i32::MIN <= points <= i32::MAX
}

/// What a round is worth to each of its players, player by player.
pub open spec fn round_points(shared: int, entries: Seq<RoundEntry>) -> Seq<int> {
    Seq::new(entries.len(), |i: int| shared + personal_points(entries[i].inputs))
}

/// Whether the points of every player fit a sheet's entry.
pub open spec fn all_fit(points: Seq<int>) -> bool {
    forall|i: int| 0 <= i < points.len() ==> fits_i32(#[trigger] points[i])
}

/// A round once the rules were applied to it.
pub struct ScoredRound {
    /// The game that was played.
    pub game: TarokGame,
    /// The players, each with the role that the rules gave.
    pub players: Seq<RoundEntry>,
    /// What the round is worth to each player.
    pub score_change: Seq<int>,
    /// Whether the declarer spends a doubling token.
    pub radlc_used: bool,
}

/// The rules applied to a round: to its players, to whether the declarer
/// holds a doubling token, and to the tokens of its game part.
pub open spec fn score_round(
    entries: Seq<RoundEntry>,
    radlc_available: bool,
    game_inputs: Seq<TarokGameInput>,
) -> Result<ScoredRound, TarokError> {
    match first_game(game_inputs) {
        None => Err(TarokError::NoGameSpecified),
        Some(game) => play_round(game, entries, radlc_available, game_inputs),
    }
}

/// A round played as the given game: it needs a player; the players get their
/// roles and their points; and the points of each must fit a sheet's entry.
pub open spec fn play_round(
    game: TarokGame,
    entries: Seq<RoundEntry>,
    radlc_available: bool,
    game_inputs: Seq<TarokGameInput>,
) -> Result<ScoredRound, TarokError> {
    if entries.len() == 0 {
        Err(TarokError::NoPlayers)
    } else {
        let players = with_roles(entries, game);
        let points = round_points(shared_points(game_inputs, game, radlc_available), players);
        if all_fit(points) {
            Ok(
                ScoredRound {
                    game,
                    players,
                    score_change: points,
                    radlc_used: game.has_base_points() && radlc_available,
                },
            )
        } else {
            Err(TarokError::PointsOutOfRange)
        }
    }
}

/// A round once the rules were applied to it, ready for the ledgers.
#[derive(Debug, PartialEq, Eq)]
pub struct RoundOutcome {
    /// The game that was played.
    pub game: TarokGame,
    /// The players, each with the role that the rules gave.
    pub players: Vec<RoundPlayer>,
    /// What the round is worth to each player.
    pub score_change: Vec<i32>,
    /// Whether the declarer spends a doubling token.
    pub radlc_used: bool,
}

/// The numbers of a list of points.
pub open spec fn points_of(score_change: Seq<i32>) -> Seq<int> {
    Seq::new(score_change.len(), |i: int| score_change[i] as int)
}

impl View for RoundOutcome {
    type V = ScoredRound;

    open spec fn view(&self) -> ScoredRound {
        ScoredRound {
            game: self.game,
            players: entries_of(self.players@),
            score_change: points_of(self.score_change@),
            radlc_used: self.radlc_used,
        }
    }
}

/// A round needs a player.
pub fn players_validity_check(players: &Vec<RoundPlayer>) -> (r: Result<(), TarokError>)
    ensures
        players.len() == 0 ==> r == Err::<(), TarokError>(TarokError::NoPlayers),
        players.len() > 0 ==> r == Ok::<(), TarokError>(()),
{
    if players.len() == 0 {
        return Err(TarokError::NoPlayers);
    }
    Ok(())
}

/// Marks the first player of the round as the one who declared the game.
pub fn add_playing_attribute_to_first_player(round_players: &mut Vec<RoundPlayer>)
    requires
        old(round_players).len() > 0,
    ensures
        final(round_players).len() == old(round_players).len(),
        entries_of(final(round_players)@) == entries_of(old(round_players)@).update(
            0,
            RoundEntry {
                player: old(round_players)[0].player,
                inputs: old(round_players)[0].inputs@.push(
                    TarokPlayerInput::PlayerAttribute(TarokPlayerAttibute::Ig),
                ),
            },
        ),
{
    round_players[0].inputs.push(TarokPlayerInput::PlayerAttribute(TarokPlayerAttibute::Ig));
    assert(entries_of(round_players@) == entries_of(old(round_players)@).update(
        0,
        RoundEntry {
            player: old(round_players)[0].player,
            inputs: old(round_players)[0].inputs@.push(
                TarokPlayerInput::PlayerAttribute(TarokPlayerAttibute::Ig),
            ),
        },
    ));
}

/// Marks every player of the round but the first as supporting.
pub fn add_supporting_attribute_to_players(round_players: &mut Vec<RoundPlayer>)
    ensures
        final(round_players).len() == old(round_players).len(),
        forall|i: int|
            1 <= i < old(round_players).len() ==> (#[trigger] final(round_players)[i])@
                == (RoundEntry {
                player: old(round_players)[i].player,
                inputs: old(round_players)[i].inputs@.push(
                    TarokPlayerInput::PlayerAttribute(TarokPlayerAttibute::Sl),
                ),
            }),
        old(round_players).len() > 0 ==> final(round_players)[0] == old(round_players)[0],
{
    let mut i: usize = 1;
    while i < round_players.len()
        invariant
            1 <= i,
            round_players.len() == old(round_players).len(),
            forall|j: int|
                1 <= j < i && j < round_players.len() ==> (#[trigger] round_players[j])@
                    == (RoundEntry {
                    player: old(round_players)[j].player,
                    inputs: old(round_players)[j].inputs@.push(
                        TarokPlayerInput::PlayerAttribute(TarokPlayerAttibute::Sl),
                    ),
                }),
            forall|j: int|
                i <= j < round_players.len() ==> (#[trigger] round_players[j]) == old(
                    round_players,
                )[j],
            old(round_players).len() > 0 ==> round_players[0] == old(round_players)[0],
        decreases round_players.len() - i,
    {
        round_players[i].inputs.push(TarokPlayerInput::PlayerAttribute(TarokPlayerAttibute::Sl));
        i += 1;
    }
}

/// Doubles the shared points where the declarer holds a doubling token, and
/// tells whether it did; the token is then to be spent.
pub fn handle_radlc(radlc_available: bool, game_points: &mut i128) -> (used: bool)
    requires
        -points_bound() < *old(game_points) < points_bound(),
    ensures
        used == radlc_available,
        *final(game_points) == if radlc_available {
            2 * *old(game_points)
        } else {
            *old(game_points) as int
        },
{
    if radlc_available {
        *game_points = *game_points * 2;
        true
    } else {
        false
    }
}

/// Gives each player of the round the shared points and the player's own.
pub fn score_game_and_player(players: &Vec<RoundPlayer>, game_points: i128) -> (r: Result<
    Vec<i32>,
    TarokError,
>)
    ensures
        all_fit(round_points(game_points as int, entries_of(players@))) ==> r is Ok && points_of(
            r->Ok_0@,
        ) == round_points(game_points as int, entries_of(players@)),
        !all_fit(round_points(game_points as int, entries_of(players@))) ==> r is Err && r->Err_0
            == TarokError::PointsOutOfRange,
{
    let ghost points = round_points(game_points as int, entries_of(players@));
    let mut score_change: Vec<i32> = Vec::new();
    let mut i: usize = 0;
    while i < players.len()
        invariant
            i <= players.len(),
            points == round_points(game_points as int, entries_of(players@)),
            score_change.len() == i,
            forall|j: int| 0 <= j < i ==> (#[trigger] score_change[j]) as int == points[j],
        decreases players.len() - i,
    {
        let personal_points = calculate_personal_points(&players[i].inputs);
        assert(points[i as int] == game_points + personal_points);
        let lowest: i128 = -0x8000_0000 - personal_points;
        let highest: i128 = 0x7fff_ffff - personal_points;
        if game_points < lowest || game_points > highest {
            assert(!fits_i32(points[i as int]));
            return Err(TarokError::PointsOutOfRange);
        }
        score_change.push((game_points + personal_points) as i32);
        i += 1;
    }
    assert(points_of(score_change@) == points);
    Ok(score_change)
}

/// Gives each player of the round the player's own points and no others.
pub fn score_player_only(players: &Vec<RoundPlayer>) -> (r: Result<Vec<i32>, TarokError>)
    ensures
        all_fit(round_points(0, entries_of(players@))) ==> r is Ok && points_of(r->Ok_0@)
            == round_points(0, entries_of(players@)),
        !all_fit(round_points(0, entries_of(players@))) ==> r is Err && r->Err_0
            == TarokError::PointsOutOfRange,
{
    score_game_and_player(players, 0)
}

/// Plays a round as the given game.
pub fn play(
    game: TarokGame,
    round_players: Vec<RoundPlayer>,
    radlc_available: bool,
    round_game_attributes: &Vec<TarokGameInput>,
) -> (r: Result<RoundOutcome, TarokError>)
    ensures
        match play_round(
            game,
            entries_of(round_players@),
            radlc_available,
            round_game_attributes@,
        ) {
            Ok(scored) => r is Ok && r->Ok_0@ == scored,
            Err(e) => r is Err && r->Err_0 == e,
        },
{
    let mut round_players = round_players;
    let ghost entries = entries_of(round_players@);
    if let Err(e) = players_validity_check(&round_players) {
        return Err(e);
    }
    // the first player declared the game; in a team game the others supported
    add_playing_attribute_to_first_player(&mut round_players);
    let ghost declared = round_players@;
    if is_team_game(game) {
        add_supporting_attribute_to_players(&mut round_players);
    }
    assert(entries_of(round_players@) == with_roles(entries, game)) by {
        assert(entries_of(declared).len() == declared.len());
        assert(entries_of(round_players@).len() == round_players.len());
        assert forall|i: int| 0 <= i < entries.len() implies entries_of(round_players@)[i]
            == with_roles(entries, game)[i] by {
            assert(entries_of(declared)[i] == declared[i]@);
            if i >= 1 && game.is_team() {
                assert(round_players[i]@.inputs == declared[i].inputs@.push(
                    TarokPlayerInput::PlayerAttribute(TarokPlayerAttibute::Sl),
                ));
            }
        }
    }
    // `KL` has no shared points and spends no token
    let mut game_points: i128 = 0;
    let mut radlc_used = false;
    match game {
        TarokGame::KL => {},
        _ => {
            game_points = calculate_base_game_points(round_game_attributes);
            radlc_used = handle_radlc(radlc_available, &mut game_points);
        },
    }
    assert(game_points == shared_points(round_game_attributes@, game, radlc_available));
    let score_change = match score_game_and_player(&round_players, game_points) {
        Ok(changes) => changes,
        Err(e) => {
            return Err(e);
        },
    };
    Ok(RoundOutcome { game, players: round_players, score_change, radlc_used })
}

/// Applies the rules to a round: finds the game it was played as and plays
/// it.
pub fn handle_game(
    round_players: Vec<RoundPlayer>,
    radlc_available: bool,
    round_game_attributes: &Vec<TarokGameInput>,
) -> (r: Result<RoundOutcome, TarokError>)
    ensures
        match score_round(entries_of(round_players@), radlc_available, round_game_attributes@) {
            Ok(scored) => r is Ok && r->Ok_0@ == scored,
            Err(e) => r is Err && r->Err_0 == e,
        },
{
    let game = match find_tarok_game(round_game_attributes) {
        Some(game) => game,
        None => {
            return Err(TarokError::NoGameSpecified);
        },
    };
    play(game, round_players, radlc_available, round_game_attributes)
}

} // verus!
