//! The ledgers of a session: for each known player a sheet of points, of what
//! each round said of the player, and of doubling tokens; and for each round
//! the tokens of its game part.
//!
//! Every sheet has one entry for each round that was played. A round that a
//! player took no part in, or that was played before the player joined,
//! leaves `None` on the player's sheet.

use vstd::prelude::*;

use crate::games::tarok::enums::{Radlc, TarokError, TarokGameInput, TarokPlayerInput};
use crate::games::tarok::rules::{game_grants_radlc, RoundOutcome, ScoredRound};
use crate::games::tarok::tokens::{
    distinct_ids, entries_of, entry_ids, find_round_player, RoundEntry, RoundPlayer,
};
use crate::models::user::{lemma_position_from, position, position_from, User};

verus! {

/// The sheets of one player.
#[derive(Debug, PartialEq, Eq)]
pub struct PlayerSheet {
    /// Whose sheets these are.
    pub player: User,
    /// The player's points, round by round.
    pub score: Vec<Option<i32>>,
    /// What each round said of the player, roles included.
    pub player_attributes: Vec<Option<Vec<TarokPlayerInput>>>,
    /// The doubling token that each round granted the player, and whether it
    /// was spent since.
    pub radlci: Vec<Option<Radlc>>,
}

/// The sheets of one player as sequences.
pub struct SheetView {
    pub player: User,
    pub score: Seq<Option<i32>>,
    pub player_attributes: Seq<Option<Seq<TarokPlayerInput>>>,
    pub radlci: Seq<Option<Radlc>>,
}

/// What each round said of a player, as sequences.
pub open spec fn attribute_rows(rows: Seq<Option<Vec<TarokPlayerInput>>>) -> Seq<
    Option<Seq<TarokPlayerInput>>,
> {
    Seq::new(
        rows.len(),
        |i: int|
            match rows[i] {
                Some(inputs) => Some(inputs@),
                None => None,
            },
    )
}

impl View for PlayerSheet {
    type V = SheetView;

    open spec fn view(&self) -> SheetView {
        SheetView {
            player: self.player,
            score: self.score@,
            player_attributes: attribute_rows(self.player_attributes@),
            radlci: self.radlci@,
        }
    }
}

/// Some players' sheets as sequences.
pub open spec fn sheets_of(sheets: Seq<PlayerSheet>) -> Seq<SheetView> {
    Seq::new(sheets.len(), |i: int| sheets[i]@)
}

/// The tokens of some rounds' game parts as sequences.
pub open spec fn game_rows(rows: Seq<Vec<TarokGameInput>>) -> Seq<Seq<TarokGameInput>> {
    Seq::new(rows.len(), |i: int| rows[i]@)
}

/// The identifiers of the players whose sheets these are.
pub open spec fn sheet_ids(sheets: Seq<SheetView>) -> Seq<Seq<char>> {
    Seq::new(sheets.len(), |i: int| sheets[i].player.id@)
}

/// `n` rounds without an entry.
pub open spec fn gaps<T>(n: nat) -> Seq<Option<T>> {
    Seq::new(n, |i: int| None)
}

/// A sheet brought up to `round` entries: what it lacks is filled with
/// `None`.
pub open spec fn filled<T>(sheet: Seq<Option<T>>, round: nat) -> Seq<Option<T>> {
    if sheet.len() < round {
        sheet + gaps((round - sheet.len()) as nat)
    } else {
        sheet
    }
}

/// The sheets of a player who joins when `round` rounds were played.
pub open spec fn blank_sheet(player: User, round: nat) -> SheetView {
    SheetView { player, score: gaps(round), player_attributes: gaps(round), radlci: gaps(round) }
}

/// Whether a doubling token is still to be spent.
pub open spec fn has_available(radlci: Seq<Option<Radlc>>) -> bool {
    exists|i: int| 0 <= i < radlci.len() && #[trigger] radlci[i] == Some(Radlc::Avalible)
}

/// The first doubling token at or after `from` that is still to be spent.
pub open spec fn first_available_from(radlci: Seq<Option<Radlc>>, from: int) -> Option<int>
    decreases radlci.len() - from,
{
    if from >= radlci.len() {
        None
    } else if radlci[from] == Some(Radlc::Avalible) {
        Some(from)
    } else {
        first_available_from(radlci, from + 1)
    }
}

/// The tokens after one was spent: the first that was still to be spent is
/// now used, and nothing else has changed.
pub open spec fn consume(radlci: Seq<Option<Radlc>>) -> Seq<Option<Radlc>> {
    match first_available_from(radlci, 0) {
        Some(i) => radlci.update(i, Some(Radlc::Used)),
        None => radlci,
    }
}

/// How many doubling tokens are still to be spent.
pub open spec fn count_available(radlci: Seq<Option<Radlc>>) -> nat
    decreases radlci.len(),
{
    if radlci.len() == 0 {
        0
    } else {
        count_available(radlci.drop_last()) + if radlci.last() == Some(Radlc::Avalible) {
            1nat
        } else {
            0nat
        }
    }
}

/// What `first_available_from` finds is the first token at or after `from`
/// that is still to be spent, and it finds one where there is one.
pub proof fn lemma_first_available(radlci: Seq<Option<Radlc>>, from: int)
    requires
        0 <= from,
    ensures
        match first_available_from(radlci, from) {
            Some(i) => from <= i < radlci.len() && radlci[i] == Some(Radlc::Avalible)
                && forall|j: int| from <= j < i ==> radlci[j] != Some(Radlc::Avalible),
            None => forall|j: int| from <= j < radlci.len() ==> radlci[j] != Some(Radlc::Avalible),
        },
    decreases radlci.len() - from,
{
    if from < radlci.len() && radlci[from] != Some(Radlc::Avalible) {
        lemma_first_available(radlci, from + 1);
    }
}

/// Whether a player of this identifier has sheets among these.
pub open spec fn knows(sheets: Seq<SheetView>, id: Seq<char>) -> bool {
    position(sheet_ids(sheets), id) is Some
}

/// The sheets of the player of this identifier.
pub open spec fn sheet_for(sheets: Seq<SheetView>, id: Seq<char>) -> SheetView
    recommends
        knows(sheets, id),
{
    sheets[position(sheet_ids(sheets), id)->0]
}

/// Whether the player of this identifier holds a doubling token that is still
/// to be spent. A player who is not known holds none.
pub open spec fn holds_radlc(sheets: Seq<SheetView>, id: Seq<char>) -> bool {
    knows(sheets, id) && has_available(sheet_for(sheets, id).radlci)
}

/// Whether every player of the round is known.
pub open spec fn knows_all(sheets: Seq<SheetView>, entries: Seq<RoundEntry>) -> bool {
    forall|k: int| 0 <= k < entries.len() ==> knows(sheets, #[trigger] entries[k].player.id@)
}

/// The sheets once a player was met, `round` rounds into the session: one who
/// is not known yet joins with sheets that hold `None` for every round played
/// so far.
pub open spec fn enrol(sheets: Seq<SheetView>, player: User, round: nat) -> Seq<SheetView> {
    if knows(sheets, player.id@) {
        sheets
    } else {
        sheets.push(blank_sheet(player, round))
    }
}

/// The sheets once the players of a round were met, one after the other.
pub open spec fn enrol_all(sheets: Seq<SheetView>, entries: Seq<RoundEntry>, round: nat) -> Seq<
    SheetView,
>
    decreases entries.len(),
{
    if entries.len() == 0 {
        sheets
    } else {
        enrol(enrol_all(sheets, entries.drop_last(), round), entries.last().player, round)
    }
}

/// What a round leaves on the sheets of one player, `round` rounds into the
/// session. Each sheet is first brought up to `round` entries. Then it gets
/// the points and what was said of the player where the player took part,
/// `None` where not, and a new doubling token where the game grants one.
/// Where the player is a declarer who spends a token, the first one that was
/// still to be spent is used.
pub open spec fn committed_sheet(
    sheet: SheetView,
    scored: ScoredRound,
    round: nat,
    spends: bool,
) -> SheetView {
    let place = position(entry_ids(scored.players), sheet.player.id@);
    SheetView {
        player: sheet.player,
        score: filled(sheet.score, round).push(
            match place {
                Some(k) => Some(scored.score_change[k] as i32),
                None => None,
            },
        ),
        player_attributes: filled(sheet.player_attributes, round).push(
            match place {
                Some(k) => Some(scored.players[k].inputs),
                None => None,
            },
        ),
        radlci: filled(
            if spends {
                consume(sheet.radlci)
            } else {
                sheet.radlci
            },
            round,
        ).push(
            if scored.game.grants_radlc() {
                Some(Radlc::Avalible)
            } else {
                None
            },
        ),
    }
}

/// Whether the sheets at place `i` are those of a declarer who spends a
/// doubling token in the round.
pub open spec fn spends_radlc(sheets: Seq<SheetView>, scored: ScoredRound, i: int) -> bool {
    scored.radlc_used && scored.players.len() > 0 && position(
        sheet_ids(sheets),
        scored.players[0].player.id@,
    ) == Some(i)
}

/// What a round leaves on the sheets of all known players.
pub open spec fn committed(sheets: Seq<SheetView>, scored: ScoredRound, round: nat) -> Seq<
    SheetView,
> {
    Seq::new(
        sheets.len(),
        |i: int| committed_sheet(sheets[i], scored, round, spends_radlc(sheets, scored, i)),
    )
}

/// The ledgers of a session as sequences.
pub struct TarokView {
    /// The known players' sheets, in the order in which the players joined.
    pub sheets: Seq<SheetView>,
    /// The tokens of each round's game part.
    pub game_attributes: Seq<Seq<TarokGameInput>>,
    /// How many rounds were played.
    pub round: nat,
}

impl TarokView {
    /// Every sheet has one entry for each round played, and no player has two
    /// sheets.
    pub open spec fn wf(self) -> bool {
        &&& self.game_attributes.len() == self.round
        &&& forall|i: int|
            0 <= i < self.sheets.len() ==> {
                &&& (#[trigger] self.sheets[i]).score.len() == self.round
                &&& self.sheets[i].player_attributes.len() == self.round
                &&& self.sheets[i].radlci.len() == self.round
            }
        &&& distinct_ids(sheet_ids(self.sheets))
    }

    /// The ledgers once the players of a round were met.
    pub open spec fn enrol_all(self, entries: Seq<RoundEntry>) -> TarokView {
        TarokView { sheets: enrol_all(self.sheets, entries, self.round), ..self }
    }

    /// The ledgers once a round was entered: every known player's sheets grow
    /// by one entry, the round's game part is kept, and one more round was
    /// played.
    pub open spec fn commit(self, scored: ScoredRound, game_inputs: Seq<TarokGameInput>) -> TarokView {
        TarokView {
            sheets: committed(self.sheets, scored, self.round),
            game_attributes: self.game_attributes.push(game_inputs),
            round: self.round + 1,
        }
    }
}

/// A name that is added at the end is found there if it did not stand before;
/// what stood before is found where it was.
pub proof fn lemma_position_push(names: Seq<Seq<char>>, added: Seq<char>, name: Seq<char>)
    ensures
        position(names, name) is Some ==> position(names.push(added), name) == position(
            names,
            name,
        ),
        position(names, name) is None && name == added ==> position(names.push(added), name)
            == Some(names.len() as int),
        position(names, name) is None && name != added ==> position(names.push(added), name)
            is None,
{
    let after = names.push(added);
    lemma_position_from(names, name, 0);
    lemma_position_from(after, name, 0);
    match position(names, name) {
        Some(i) => {
            assert(after[i] == name);
            match position(after, name) {
                Some(j) => {
                    if j < i {
                        assert(names[j] == after[j]);
                    }
                },
                None => {},
            }
        },
        None => {
            match position(after, name) {
                Some(j) => {
                    if j < names.len() {
                        assert(names[j] == after[j]);
                    }
                },
                None => {
                    if name == added {
                        assert(after[names.len() as int] == name);
                    }
                },
            }
        },
    }
}

/// Brings a sheet up to `round` entries: what it lacks is filled with `None`.
pub fn fill_gaps_until_round<T>(score: &mut Vec<Option<T>>, round: usize)
    ensures
        final(score)@ == filled(old(score)@, round as nat),
{
    let ghost before = score@;
    while score.len() < round
        invariant
            before.len() < round ==> score@ == before + gaps::<T>((score.len() - before.len()) as nat)
                && score.len() <= round,
            before.len() >= round ==> score@ == before,
            before.len() <= score.len(),
        decreases round - score.len(),
    {
        score.push(None);
    }
}

/// Where the sheets of the player of this identifier stand.
pub fn find_sheet(sheets: &Vec<PlayerSheet>, id: &String) -> (r: Option<usize>)
    ensures
        match r {
            Some(i) => i < sheets.len() && position(sheet_ids(sheets_of(sheets@)), id@) == Some(
                i as int,
            ),
            None => position(sheet_ids(sheets_of(sheets@)), id@) is None,
        },
{
    let ghost ids = sheet_ids(sheets_of(sheets@));
    let mut i: usize = 0;
    while i < sheets.len()
        invariant
            i <= sheets.len(),
            ids == sheet_ids(sheets_of(sheets@)),
            position(ids, id@) == position_from(ids, id@, i as int),
        decreases sheets.len() - i,
    {
        assert(ids[i as int] == sheets@[i as int].player.id@);
        if sheets[i].player.id == *id {
            return Some(i);
        }
        i += 1;
    }
    None
}

/// A sheet of `round` entries that are all `None`.
pub fn blank_rows<T>(round: usize) -> (r: Vec<Option<T>>)
    ensures
        r@ == gaps::<T>(round as nat),
{
    let mut r: Vec<Option<T>> = Vec::new();
    fill_gaps_until_round(&mut r, round);
    assert(r@ == gaps::<T>(round as nat));
    r
}

/// Gives sheets to the players of a round who are not known yet, with `None`
/// for each of the `round` rounds played so far.
pub fn handle_new_users(players: &Vec<RoundPlayer>, sheets: &mut Vec<PlayerSheet>, round: usize)
    ensures
        sheets_of(final(sheets)@) == enrol_all(
            sheets_of(old(sheets)@),
            entries_of(players@),
            round as nat,
        ),
{
    let ghost entries = entries_of(players@);
    let ghost start = sheets_of(sheets@);
    let mut k: usize = 0;
    assert(entries.take(0) == Seq::<RoundEntry>::empty());
    while k < players.len()
        invariant
            k <= players.len(),
            entries == entries_of(players@),
            sheets_of(sheets@) == enrol_all(start, entries.take(k as int), round as nat),
        decreases players.len() - k,
    {
        let ghost before = sheets_of(sheets@);
        assert(entries.take(k + 1).drop_last() == entries.take(k as int));
        assert(entries.take(k + 1).last() == players@[k as int]@);
        if find_sheet(sheets, &players[k].player.id).is_none() {
            let sheet = PlayerSheet {
                player: players[k].player.clone(),
                score: blank_rows(round),
                player_attributes: blank_rows(round),
                radlci: blank_rows(round),
            };
            assert(sheet@ == blank_sheet(players@[k as int].player, round as nat)) by {
                assert(attribute_rows(sheet.player_attributes@) == gaps::<Seq<TarokPlayerInput>>(
                    round as nat,
                ));
            }
            sheets.push(sheet);
            assert(sheets_of(sheets@) == before.push(sheet@));
        }
        k += 1;
    }
    assert(entries.take(players.len() as int) == entries);
}

/// Whether a token among these is still to be spent.
pub fn any_available(radlci: &Vec<Option<Radlc>>) -> (r: bool)
    ensures
        r == has_available(radlci@),
{
    let mut i: usize = 0;
    while i < radlci.len()
        invariant
            i <= radlci.len(),
            forall|j: int| 0 <= j < i ==> radlci@[j] != Some(Radlc::Avalible),
        decreases radlci.len() - i,
    {
        if let Some(Radlc::Avalible) = radlci[i] {
            return true;
        }
        i += 1;
    }
    false
}

/// Whether the player of this identifier holds a doubling token that is still
/// to be spent.
pub fn player_has_avalible_radlc(player_id: &String, sheets: &Vec<PlayerSheet>) -> (r: bool)
    ensures
        r == holds_radlc(sheets_of(sheets@), player_id@),
{
    match find_sheet(sheets, player_id) {
        Some(i) => {
            assert(sheets_of(sheets@)[i as int] == sheets@[i as int]@);
            any_available(&sheets[i].radlci)
        },
        None => false,
    }
}

/// Spends the first token that is still to be spent, and tells whether there
/// was one.
pub fn consume_radlc(radlci: &mut Vec<Option<Radlc>>) -> (r: bool)
    ensures
        final(radlci)@ == consume(old(radlci)@),
        r == has_available(old(radlci)@),
{
    let mut i: usize = 0;
    while i < radlci.len()
        invariant
            i <= radlci.len(),
            radlci@ == old(radlci)@,
            first_available_from(radlci@, 0) == first_available_from(radlci@, i as int),
            forall|j: int| 0 <= j < i ==> radlci@[j] != Some(Radlc::Avalible),
        decreases radlci.len() - i,
    {
        if let Some(Radlc::Avalible) = radlci[i] {
            radlci[i] = Some(Radlc::Used);
            return true;
        }
        i += 1;
    }
    false
}

/// Spends the first doubling token of the player of this identifier that is
/// still to be spent, and tells whether there was one. No other sheet
/// changes.
pub fn consume_player_radlc(player_id: &String, sheets: &mut Vec<PlayerSheet>) -> (r: bool)
    ensures
        r == holds_radlc(sheets_of(old(sheets)@), player_id@),
        final(sheets).len() == old(sheets).len(),
        forall|i: int|
            0 <= i < old(sheets).len() ==> (#[trigger] final(sheets)[i])@ == (if position(
                sheet_ids(sheets_of(old(sheets)@)),
                player_id@,
            ) == Some(i) {
                SheetView { radlci: consume(old(sheets)[i].radlci@), ..old(sheets)[i]@ }
            } else {
                old(sheets)[i]@
            }),
{
    match find_sheet(sheets, player_id) {
        Some(i) => {
            assert(sheets_of(sheets@)[i as int] == sheets@[i as int]@);
            consume_radlc(&mut sheets[i].radlci)
        },
        None => false,
    }
}

/// A copy of some tokens.
pub fn copy_inputs(inputs: &Vec<TarokPlayerInput>) -> (r: Vec<TarokPlayerInput>)
    ensures
        r@ == inputs@,
{
    let mut r: Vec<TarokPlayerInput> = Vec::new();
    let mut i: usize = 0;
    while i < inputs.len()
        invariant
            i <= inputs.len(),
            r@ == inputs@.take(i as int),
        decreases inputs.len() - i,
    {
        assert(inputs@.take(i + 1) == inputs@.take(i as int).push(inputs@[i as int]));
        r.push(inputs[i]);
        i += 1;
    }
    assert(inputs@.take(inputs.len() as int) == inputs@);
    r
}

/// Brings the rows of what was said of a player up to `round` entries and
/// adds one.
fn push_attributes(
    rows: &mut Vec<Option<Vec<TarokPlayerInput>>>,
    round: usize,
    entry: Option<Vec<TarokPlayerInput>>,
)
    ensures
        attribute_rows(final(rows)@) == filled(attribute_rows(old(rows)@), round as nat).push(
            match entry {
                Some(inputs) => Some(inputs@),
                None => None,
            },
        ),
{
    fill_gaps_until_round(rows, round);
    assert(attribute_rows(rows@) == filled(attribute_rows(old(rows)@), round as nat));
    let ghost mid = rows@;
    rows.push(entry);
    assert(attribute_rows(rows@) == attribute_rows(mid).push(
        match entry {
            Some(inputs) => Some(inputs@),
            None => None,
        },
    ));
}

/// The points of the player at a place of the round, `None` for no place and
/// for a place that has no points.
pub open spec fn points_at(score_change: Seq<i32>, place: Option<int>) -> Option<i32> {
    match place {
        Some(k) => if 0 <= k < score_change.len() {
            Some(score_change[k])
        } else {
            None
        },
        None => None,
    }
}

/// Enters the points of a round: each sheet is brought up to `round` entries
/// and gets the points of its player, `None` where the player took no part.
pub fn save_score(
    players: &Vec<RoundPlayer>,
    score_change: &Vec<i32>,
    round: usize,
    sheets: &mut Vec<PlayerSheet>,
)
    ensures
        final(sheets).len() == old(sheets).len(),
        forall|i: int|
            0 <= i < old(sheets).len() ==> (#[trigger] final(sheets)[i])@ == (SheetView {
                score: filled(old(sheets)[i].score@, round as nat).push(
                    points_at(
                        score_change@,
                        position(entry_ids(entries_of(players@)), old(sheets)[i].player.id@),
                    ),
                ),
                ..old(sheets)[i]@
            }),
{
    let mut i: usize = 0;
    while i < sheets.len()
        invariant
            i <= sheets.len(),
            sheets.len() == old(sheets).len(),
            forall|j: int| i <= j < sheets.len() ==> (#[trigger] sheets[j]) == old(sheets)[j],
            forall|j: int|
                0 <= j < i ==> (#[trigger] sheets[j])@ == (SheetView {
                    score: filled(old(sheets)[j].score@, round as nat).push(
                        points_at(
                            score_change@,
                            position(entry_ids(entries_of(players@)), old(sheets)[j].player.id@),
                        ),
                    ),
                    ..old(sheets)[j]@
                }),
        decreases sheets.len() - i,
    {
        let change = match find_round_player(players, &sheets[i].player.id) {
            Some(k) => if k < score_change.len() {
                Some(score_change[k])
            } else {
                None
            },
            None => None,
        };
        fill_gaps_until_round(&mut sheets[i].score, round);
        sheets[i].score.push(change);
        i += 1;
    }
}

/// Enters what a round said of its players: each sheet is brought up to
/// `round` entries and gets what was said of its player, `None` where the
/// player took no part.
pub fn save_player_attributes(
    players: &Vec<RoundPlayer>,
    round: usize,
    sheets: &mut Vec<PlayerSheet>,
)
    ensures
        final(sheets).len() == old(sheets).len(),
        forall|i: int|
            0 <= i < old(sheets).len() ==> (#[trigger] final(sheets)[i])@ == (SheetView {
                player_attributes: filled(old(sheets)[i]@.player_attributes, round as nat).push(
                    match position(
                        entry_ids(entries_of(players@)),
                        old(sheets)[i].player.id@,
                    ) {
                        Some(k) => Some(players[k].inputs@),
                        None => None,
                    },
                ),
                ..old(sheets)[i]@
            }),
{
    let mut i: usize = 0;
    while i < sheets.len()
        invariant
            i <= sheets.len(),
            sheets.len() == old(sheets).len(),
            forall|j: int| i <= j < sheets.len() ==> (#[trigger] sheets[j]) == old(sheets)[j],
            forall|j: int|
                0 <= j < i ==> (#[trigger] sheets[j])@ == (SheetView {
                    player_attributes: filled(
                        old(sheets)[j]@.player_attributes,
                        round as nat,
                    ).push(
                        match position(
                            entry_ids(entries_of(players@)),
                            old(sheets)[j].player.id@,
                        ) {
                            Some(k) => Some(players[k].inputs@),
                            None => None,
                        },
                    ),
                    ..old(sheets)[j]@
                }),
        decreases sheets.len() - i,
    {
        let said = match find_round_player(players, &sheets[i].player.id) {
            Some(k) => Some(copy_inputs(&players[k].inputs)),
            None => None,
        };
        push_attributes(&mut sheets[i].player_attributes, round, said);
        i += 1;
    }
}

/// Keeps the tokens of a round's game part.
pub fn save_game_attributes(
    round_game_attributes: Vec<TarokGameInput>,
    global_game_attributes: &mut Vec<Vec<TarokGameInput>>,
)
    ensures
        game_rows(final(global_game_attributes)@) == game_rows(old(global_game_attributes)@).push(
            round_game_attributes@,
        ),
{
    global_game_attributes.push(round_game_attributes);
    assert(game_rows(global_game_attributes@) == game_rows(old(global_game_attributes)@).push(
        round_game_attributes@,
    ));
}

/// Brings every sheet of doubling tokens up to `round` entries and adds this
/// round's: a new token where one is granted, `None` where not.
pub fn add_radlc(sheets: &mut Vec<PlayerSheet>, round: usize, granted: bool)
    ensures
        final(sheets).len() == old(sheets).len(),
        forall|i: int|
            0 <= i < old(sheets).len() ==> (#[trigger] final(sheets)[i])@ == (SheetView {
                radlci: filled(old(sheets)[i].radlci@, round as nat).push(
                    if granted {
                        Some(Radlc::Avalible)
                    } else {
                        None
                    },
                ),
                ..old(sheets)[i]@
            }),
{
    let mut i: usize = 0;
    while i < sheets.len()
        invariant
            i <= sheets.len(),
            sheets.len() == old(sheets).len(),
            forall|j: int| i <= j < sheets.len() ==> (#[trigger] sheets[j]) == old(sheets)[j],
            forall|j: int|
                0 <= j < i ==> (#[trigger] sheets[j])@ == (SheetView {
                    radlci: filled(old(sheets)[j].radlci@, round as nat).push(
                        if granted {
                            Some(Radlc::Avalible)
                        } else {
                            None
                        },
                    ),
                    ..old(sheets)[j]@
                }),
        decreases sheets.len() - i,
    {
        fill_gaps_until_round(&mut sheets[i].radlci, round);
        sheets[i].radlci.push(
            if granted {
                Some(Radlc::Avalible)
            } else {
                None
            },
        );
        i += 1;
    }
}

/// One more round was played.
pub fn increment_round(round: &mut usize)
    requires
        *old(round) < usize::MAX,
    ensures
        *final(round) == *old(round) + 1,
{
    *round += 1;
}

/// Whether every player of the round has sheets.
pub fn all_known(players: &Vec<RoundPlayer>, sheets: &Vec<PlayerSheet>) -> (r: bool)
    ensures
        r == knows_all(sheets_of(sheets@), entries_of(players@)),
{
    let mut k: usize = 0;
    while k < players.len()
        invariant
            k <= players.len(),
            forall|j: int|
                0 <= j < k ==> knows(sheets_of(sheets@), #[trigger] entries_of(players@)[j].player.id@),
        decreases players.len() - k,
    {
        assert(entries_of(players@)[k as int] == players@[k as int]@);
        if find_sheet(sheets, &players[k].player.id).is_none() {
            assert(!knows(sheets_of(sheets@), entries_of(players@)[k as int].player.id@));
            return false;
        }
        k += 1;
    }
    true
}

/// Enters a round into the ledgers, `round` rounds into the session: all of
/// it, or, where a player of the round has no sheets, nothing.
pub fn save_round_to_sheets(
    outcome: &RoundOutcome,
    round_game_attributes: Vec<TarokGameInput>,
    sheets: &mut Vec<PlayerSheet>,
    global_game_attributes: &mut Vec<Vec<TarokGameInput>>,
    round: usize,
) -> (r: Result<(), TarokError>)
    ensures
        knows_all(sheets_of(old(sheets)@), outcome@.players) && outcome.players.len()
            == outcome.score_change.len() ==> r is Ok && sheets_of(final(sheets)@) == committed(
            sheets_of(old(sheets)@),
            outcome@,
            round as nat,
        ) && game_rows(final(global_game_attributes)@) == game_rows(
            old(global_game_attributes)@,
        ).push(round_game_attributes@),
        !(knows_all(sheets_of(old(sheets)@), outcome@.players) && outcome.players.len()
            == outcome.score_change.len()) ==> r == Err::<(), TarokError>(
            TarokError::LedgerInvariantViolation,
        ) && *final(sheets) == *old(sheets) && *final(global_game_attributes) == *old(
            global_game_attributes,
        ),
{
    if outcome.players.len() != outcome.score_change.len() || !all_known(&outcome.players, sheets) {
        return Err(TarokError::LedgerInvariantViolation);
    }
    let ghost start = sheets_of(sheets@);
    let ghost entries = entries_of(outcome.players@);
    let ghost scored = outcome@;
    if outcome.radlc_used && outcome.players.len() > 0 {
        consume_player_radlc(&outcome.players[0].player.id, sheets);
    }
    let ghost spent = sheets@;
    save_score(&outcome.players, &outcome.score_change, round, sheets);
    let ghost scored_sheets = sheets@;
    save_player_attributes(&outcome.players, round, sheets);
    let ghost said = sheets@;
    add_radlc(sheets, round, game_grants_radlc(outcome.game));
    save_game_attributes(round_game_attributes, global_game_attributes);
    proof {
        assert forall|i: int| 0 <= i < start.len() implies sheets_of(sheets@)[i] == committed_sheet(
            start[i],
            scored,
            round as nat,
            spends_radlc(start, scored, i),
        ) by {
            assert(start[i] == old(sheets)[i]@);
            assert(sheets_of(sheets@)[i] == sheets@[i]@);
            let place = position(entry_ids(entries), start[i].player.id@);
            if outcome.players.len() > 0 {
                assert(entries[0] == outcome.players@[0]@);
            }
            assert(spent[i]@.player == start[i].player);
            assert(scored_sheets[i]@.player == start[i].player);
            assert(said[i]@.player == start[i].player);
            match place {
                Some(k) => {
                    lemma_position_from(entry_ids(entries), start[i].player.id@, 0);
                    assert(entries[k] == outcome.players@[k]@);
                    assert(scored.score_change[k] as i32 == outcome.score_change@[k]);
                },
                None => {},
            }
        }
        assert(sheets_of(sheets@) == committed(start, scored, round as nat));
    }
    Ok(())
}

} // verus!
