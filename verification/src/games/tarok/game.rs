//! A session of Tarok: rounds are handed in as lines of text, and each one is
//! either entered into the ledgers whole or rejected without a trace.

use vstd::prelude::*;

use crate::games::tarok::enums::{
    Radlc, TarokError, TarokGame, TarokGameInput, TarokPlayerInput,
};
use crate::games::tarok::report::{
    copy_game_rows, copy_sheets, report_of, sum_score_by_players, TarokReport,
};
use crate::games::tarok::rules::{handle_game, score_round, RoundOutcome, ScoredRound};
use crate::games::tarok::sheets::{
    blank_sheet, committed_sheet, consume, enrol, enrol_all, fill_gaps_until_round, game_rows,
    gaps, handle_new_users, holds_radlc, increment_round, knows, knows_all,
    lemma_first_available, lemma_position_push, player_has_avalible_radlc,
    save_round_to_sheets, sheet_for, sheet_ids, sheets_of, spends_radlc, PlayerSheet, SheetView,
    TarokView,
};
use crate::games::tarok::tokens::{
    distinct_ids, entries_of, names_game, parse_round, read_round, resolve_game_fragment,
    round_fragments, RoundEntry,
};
use crate::models::user::{lemma_position_from, position, PlayerDirectory, User};
use crate::text::{
    append_chars, append_str, decimal, decimal_chars, split_on, string_of, words,
};

verus! {

/// A session of Tarok.
#[derive(Debug)]
pub struct Tarok {
    sheets: Vec<PlayerSheet>,
    game_attributes: Vec<Vec<TarokGameInput>>,
    round: usize,
}

impl View for Tarok {
    type V = TarokView;

    closed spec fn view(&self) -> TarokView {
        TarokView {
            sheets: sheets_of(self.sheets@),
            game_attributes: game_rows(self.game_attributes@),
            round: self.round as nat,
        }
    }
}

/// What handing in a round line does to the ledgers. The line is read; the
/// rules are applied to it, the declarer holding a doubling token or not as
/// the ledgers say; and only then are the round's new players given sheets and
/// the round entered. Where reading or the rules fail, so does the round.
pub open spec fn submit(v: TarokView, text: Seq<char>, directory: PlayerDirectory) -> Result<
    TarokView,
    TarokError,
> {
    match scored_submission(v, text, directory) {
        Err(e) => Err(e),
        Ok(scored) => Ok(v.enrol_all(scored.players).commit(scored, submitted_game(text))),
    }
}

/// The tokens of the game part of a line that reads as a round.
pub open spec fn submitted_game(text: Seq<char>) -> Seq<TarokGameInput> {
    match resolve_game_fragment(words(text)[1]) {
        Ok(inputs) => inputs,
        Err(_) => Seq::empty(),
    }
}

/// A round line read and scored against the ledgers, or the reason why it is
/// rejected.
pub open spec fn scored_submission(v: TarokView, text: Seq<char>, directory: PlayerDirectory) -> Result<
    ScoredRound,
    TarokError,
> {
    match parse_round(text, directory) {
        Err(e) => Err(e),
        Ok(parsed) => score_round(
            parsed.players,
            parsed.players.len() > 0 && holds_radlc(v.sheets, parsed.players[0].player.id@),
            parsed.game_attributes,
        ),
    }
}

/// The lines that tell what a round was worth: for each player that has
/// points a line break, the name, an arrow and the points.
pub open spec fn response_text(scored: ScoredRound) -> Seq<char> {
    response_lines(scored, scored.players.len())
}

/// The first `n` lines of `response_text`.
pub open spec fn response_lines(scored: ScoredRound, n: nat) -> Seq<char>
    decreases n,
{
    if n == 0 {
        Seq::empty()
    } else if n - 1 < scored.score_change.len() {
        response_lines(scored, (n - 1) as nat) + seq!['\n'] + scored.players[n - 1].player.name@
            + " -> "@ + decimal(scored.score_change[n - 1])
    } else {
        response_lines(scored, (n - 1) as nat)
    }
}

/// Tells what a round was worth to each of its players.
pub fn generate_response(outcome: &RoundOutcome) -> (r: String)
    ensures
        r@ == response_text(outcome@),
{
    let mut out: Vec<char> = Vec::new();
    let mut k: usize = 0;
    while k < outcome.players.len()
        invariant
            k <= outcome.players.len(),
            out@ == response_lines(outcome@, k as nat),
        decreases outcome.players.len() - k,
    {
        assert(outcome@.players[k as int] == outcome.players@[k as int]@);
        assert(outcome@.score_change.len() == outcome.score_change.len());
        if k < outcome.score_change.len() {
            assert(outcome@.score_change[k as int] == outcome.score_change@[k as int]);
            out.push('\n');
            append_str(&mut out, outcome.players[k].player.name.as_str());
            append_str(&mut out, " -> ");
            let points = decimal_chars(outcome.score_change[k] as i128);
            append_chars(&mut out, &points);
        }
        k += 1;
    }
    assert(outcome@.players.len() == outcome.players.len());
    string_of(&out)
}

/// The present moment as `chrono::Utc::now` tells it, in the text form of
/// `DateTime<Utc>`. It is the time of the call: nothing is claimed of it.
/// `Utc::now` gives up where the clock of the system stands before 1970.
#[verifier::external_body]
pub(crate) fn now_text() -> (r: String) {
    chrono::Utc::now().to_string()
}

/// The name of the file that holds the report of a game of Tarok that ended
/// at the moment `stamp`.
pub open spec fn file_name_text(stamp: Seq<char>) -> Seq<char> {
    stamp + "_tarok.html"@
}

/// The name of the file for a game that ended at the given moment.
pub fn file_name_at(stamp: &str) -> (r: String)
    ensures
        r@ == file_name_text(stamp@),
{
    let mut out: Vec<char> = Vec::new();
    append_str(&mut out, stamp);
    append_str(&mut out, "_tarok.html");
    string_of(&out)
}

impl Tarok {
    /// The name of the file for a game that ends now.
    pub fn generate_file_name(&self) -> (r: String)
        ensures
            exists|stamp: Seq<char>| r@ == file_name_text(stamp),
    {
        let stamp = now_text();
        file_name_at(stamp.as_str())
    }

    /// Every sheet has one entry for each round played, and no player has
    /// two sheets.
    pub open spec fn wf(&self) -> bool {
        self@.wf()
    }

    /// A session in which nothing was played and nobody is known.
    pub fn new() -> (r: Self)
        ensures
            r.wf(),
            r@ == (TarokView { sheets: Seq::empty(), game_attributes: Seq::empty(), round: 0 }),
    {
        let r = Self { sheets: Vec::new(), game_attributes: Vec::new(), round: 0 };
        assert(r@.sheets == Seq::<SheetView>::empty());
        assert(r@.game_attributes == Seq::<Seq<TarokGameInput>>::empty());
        r
    }

    /// Opens the session.
    pub fn start_game(&mut self) -> (r: String)
        ensures
            r@ == "Started game of Tarok!"@,
            *final(self) == *old(self),
    {
        "Started game of Tarok!".to_string()
    }

    /// How many rounds were played.
    pub fn round(&self) -> (r: usize)
        ensures
            r == self@.round,
    {
        self.round
    }

    /// Whether the ledgers are in order.
    pub fn is_well_formed(&self) -> (r: bool)
        ensures
            r == self.wf(),
    {
        let ghost sheets = self@.sheets;
        let ghost ids = sheet_ids(sheets);
        assert(self@.game_attributes.len() == self.game_attributes.len());
        if self.game_attributes.len() != self.round {
            return false;
        }
        let mut i: usize = 0;
        while i < self.sheets.len()
            invariant
                i <= self.sheets.len(),
                sheets == sheets_of(self.sheets@),
                ids == sheet_ids(sheets),
                forall|k: int|
                    0 <= k < i ==> {
                        &&& (#[trigger] sheets[k]).score.len() == self.round
                        &&& sheets[k].player_attributes.len() == self.round
                        &&& sheets[k].radlci.len() == self.round
                    },
                forall|k: int, j: int| 0 <= k < j < i ==> #[trigger] ids[k] != #[trigger] ids[j],
            decreases self.sheets.len() - i,
        {
            assert(sheets[i as int] == self.sheets@[i as int]@);
            assert(sheets[i as int].player_attributes.len()
                == self.sheets@[i as int].player_attributes.len());
            if self.sheets[i].score.len() != self.round || self.sheets[i].player_attributes.len()
                != self.round || self.sheets[i].radlci.len() != self.round {
                return false;
            }
            let mut k: usize = 0;
            while k < i
                invariant
                    k <= i < self.sheets.len(),
                    sheets == sheets_of(self.sheets@),
                    ids == sheet_ids(sheets),
                    forall|j: int| 0 <= j < k ==> #[trigger] ids[j] != ids[i as int],
                decreases i - k,
            {
                assert(ids[k as int] == self.sheets@[k as int].player.id@);
                assert(ids[i as int] == self.sheets@[i as int].player.id@);
                if self.sheets[k].player.id == self.sheets[i].player.id {
                    assert(ids[k as int] == ids[i as int]);
                    return false;
                }
                k += 1;
            }
            i += 1;
        }
        true
    }

    /// The sheets of the known players, in the order in which they joined.
    pub fn sheets(&self) -> (r: &Vec<PlayerSheet>)
        ensures
            sheets_of(r@) == self@.sheets,
    {
        &self.sheets
    }

    /// The tokens of each round's game part.
    pub fn game_attributes(&self) -> (r: &Vec<Vec<TarokGameInput>>)
        ensures
            game_rows(r@) == self@.game_attributes,
    {
        &self.game_attributes
    }

    /// The state of the session: a copy of its ledgers with each player's
    /// standing. The session is afterwards as it was, so that asking again
    /// gives the same.
    pub fn get_state(&mut self) -> (r: TarokReport)
        requires
            old(self).wf(),
        ensures
            final(self)@ == old(self)@,
            final(self).wf(),
            r@ == report_of(old(self)@),
    {
        let mut i: usize = 0;
        while i < self.sheets.len()
            invariant
                i <= self.sheets.len(),
                self.wf(),
                self@ == old(self)@,
            decreases self.sheets.len() - i,
        {
            assert(self@.sheets[i as int] == self.sheets@[i as int]@);
            let ghost before = self.sheets@;
            fill_gaps_until_round(&mut self.sheets[i].score, self.round);
            assert(self.sheets@[i as int]@ == before[i as int]@);
            assert(sheets_of(self.sheets@) == sheets_of(before));
            i += 1;
        }
        TarokReport {
            sum_by_player: sum_score_by_players(&self.sheets),
            sheets: copy_sheets(&self.sheets),
            round: self.round,
            game_attributes: copy_game_rows(&self.game_attributes),
        }
    }

    /// Ends the session and gives its last state.
    pub fn end_game(self) -> (r: TarokReport)
        requires
            self.wf(),
        ensures
            r@ == report_of(self@),
    {
        let mut session = self;
        session.get_state()
    }

    /// Takes a round line. The round is entered into the ledgers and told in
    /// the answer, or it is rejected and the session is as it was.
    pub fn handle_round(&mut self, text: &str, directory: &PlayerDirectory) -> (r: Result<
        String,
        TarokError,
    >)
        requires
            old(self).wf(),
        ensures
            final(self).wf(),
            match submit(old(self)@, text@, *directory) {
                Ok(next) => r is Ok && final(self)@ == next && r->Ok_0@ == response_text(
                    scored_submission(old(self)@, text@, *directory)->Ok_0,
                ),
                Err(e) => r == Err::<String, TarokError>(e) && *final(self) == *old(self),
            },
    {
        let (game_attributes, round_players) = match read_round(text, directory) {
            Ok(read) => read,
            Err(e) => {
                return Err(e);
            },
        };
        let radlc_available = round_players.len() > 0 && player_has_avalible_radlc(
            &round_players[0].player.id,
            &self.sheets,
        );
        proof {
            if round_players.len() > 0 {
                assert(entries_of(round_players@)[0] == round_players@[0]@);
            }
        }
        let outcome = match handle_game(round_players, radlc_available, &game_attributes) {
            Ok(outcome) => outcome,
            Err(e) => {
                return Err(e);
            },
        };
        let ghost scored = outcome@;
        proof {
            lemma_enrol_all(old(self)@, scored.players);
        }
        handle_new_users(&outcome.players, &mut self.sheets, self.round);
        assert(outcome.players.len() == outcome.score_change.len()) by {
            assert(outcome@.players.len() == outcome.players.len());
            assert(outcome@.score_change.len() == outcome.score_change.len());
        }
        let saved = save_round_to_sheets(
            &outcome,
            game_attributes,
            &mut self.sheets,
            &mut self.game_attributes,
            self.round,
        );
        assert(saved is Ok);
        proof {
            lemma_commit(old(self)@.enrol_all(scored.players), scored, submitted_game(text@));
        }
        assert(self.game_attributes.len() == self.round + 1) by {
            assert(game_rows(self.game_attributes@).len() == self.game_attributes.len());
        }
        increment_round(&mut self.round);
        Ok(generate_response(&outcome))
    }
}

/// Giving sheets to the players of a round keeps the ledgers in order: the
/// round counter and the rounds' game parts stay, whoever was known keeps
/// place and sheets, and every player of the round is known afterwards.
pub proof fn lemma_enrol_all(v: TarokView, entries: Seq<RoundEntry>)
    requires
        v.wf(),
    ensures
        v.enrol_all(entries).wf(),
        v.enrol_all(entries).round == v.round,
        v.enrol_all(entries).game_attributes == v.game_attributes,
        v.sheets.len() <= v.enrol_all(entries).sheets.len(),
        forall|i: int| 0 <= i < v.sheets.len() ==> v.enrol_all(entries).sheets[i] == v.sheets[i],
        knows_all(v.enrol_all(entries).sheets, entries),
    decreases entries.len(),
{
    if entries.len() > 0 {
        let before = v.enrol_all(entries.drop_last());
        lemma_enrol_all(v, entries.drop_last());
        lemma_enrol(before.sheets, entries.last().player, v.round);
        let after = v.enrol_all(entries);
        assert(after.sheets == enrol(before.sheets, entries.last().player, v.round));
        assert forall|k: int| 0 <= k < entries.len() implies knows(
            after.sheets,
            #[trigger] entries[k].player.id@,
        ) by {
            if k < entries.len() - 1 {
                assert(entries.drop_last()[k] == entries[k]);
                assert(knows(before.sheets, entries.drop_last()[k].player.id@));
            }
        }
    }
}

/// A player who is met joins at the end, unless known already; whoever was
/// known keeps place and sheets.
pub proof fn lemma_enrol(sheets: Seq<SheetView>, player: User, round: nat)
    requires
        distinct_ids(sheet_ids(sheets)),
        forall|i: int|
            0 <= i < sheets.len() ==> {
                &&& (#[trigger] sheets[i]).score.len() == round
                &&& sheets[i].player_attributes.len() == round
                &&& sheets[i].radlci.len() == round
            },
    ensures
        distinct_ids(sheet_ids(enrol(sheets, player, round))),
        forall|i: int|
            0 <= i < enrol(sheets, player, round).len() ==> {
                &&& (#[trigger] enrol(sheets, player, round)[i]).score.len() == round
                &&& enrol(sheets, player, round)[i].player_attributes.len() == round
                &&& enrol(sheets, player, round)[i].radlci.len() == round
            },
        knows(enrol(sheets, player, round), player.id@),
        sheets.len() <= enrol(sheets, player, round).len(),
        forall|i: int| 0 <= i < sheets.len() ==> enrol(sheets, player, round)[i] == sheets[i],
        forall|id: Seq<char>|
            knows(sheets, id) ==> knows(enrol(sheets, player, round), id) && sheet_for(
                enrol(sheets, player, round),
                id,
            ) == sheet_for(sheets, id),
        !knows(sheets, player.id@) ==> sheet_for(enrol(sheets, player, round), player.id@)
            == blank_sheet(player, round),
{
    let ids = sheet_ids(sheets);
    let after = enrol(sheets, player, round);
    let after_ids = sheet_ids(after);
    lemma_position_from(ids, player.id@, 0);
    if !knows(sheets, player.id@) {
        assert(after_ids == ids.push(player.id@));
        assert forall|i: int, j: int| 0 <= i < j < after_ids.len() implies #[trigger] after_ids[i]
            != #[trigger] after_ids[j] by {
            if j < ids.len() {
                assert(ids[i] != ids[j]);
            }
        }
        assert forall|id: Seq<char>| knows(sheets, id) implies knows(after, id) && sheet_for(
            after,
            id,
        ) == sheet_for(sheets, id) by {
            lemma_position_push(ids, player.id@, id);
            lemma_position_from(ids, id, 0);
        }
        lemma_position_from(after_ids, player.id@, 0);
        lemma_position_push(ids, player.id@, player.id@);
    }
}

/// Entering a round keeps the ledgers in order and adds exactly one entry to
/// every sheet: after the round with index `N`, every known player's sheets
/// hold `N + 1` entries, and so does the list of the rounds' game parts.
pub proof fn lemma_commit(v: TarokView, scored: ScoredRound, game_inputs: Seq<TarokGameInput>)
    requires
        v.wf(),
    ensures
        v.commit(scored, game_inputs).wf(),
        v.commit(scored, game_inputs).round == v.round + 1,
        v.commit(scored, game_inputs).sheets.len() == v.sheets.len(),
        v.commit(scored, game_inputs).game_attributes.len() == v.round + 1,
        forall|i: int|
            0 <= i < v.sheets.len() ==> {
                &&& (#[trigger] v.commit(scored, game_inputs).sheets[i]).player
                    == v.sheets[i].player
                &&& v.commit(scored, game_inputs).sheets[i].score.len() == v.round + 1
                &&& v.commit(scored, game_inputs).sheets[i].player_attributes.len() == v.round + 1
                &&& v.commit(scored, game_inputs).sheets[i].radlci.len() == v.round + 1
            },
{
    let after = v.commit(scored, game_inputs);
    assert forall|i: int| 0 <= i < v.sheets.len() implies {
        &&& (#[trigger] after.sheets[i]).player == v.sheets[i].player
        &&& after.sheets[i].score.len() == v.round + 1
        &&& after.sheets[i].player_attributes.len() == v.round + 1
        &&& after.sheets[i].radlci.len() == v.round + 1
    } by {
        assert(after.sheets[i] == committed_sheet(
            v.sheets[i],
            scored,
            v.round,
            spends_radlc(v.sheets, scored, i),
        ));
        lemma_first_available_in(v.sheets[i].radlci);
    }
    assert(sheet_ids(after.sheets) == sheet_ids(v.sheets));
}

/// Spending a token keeps the number of entries.
pub proof fn lemma_first_available_in(radlci: Seq<Option<Radlc>>)
    ensures
        consume(radlci).len() == radlci.len(),
{
    lemma_first_available(radlci, 0);
}

/// After a round was entered, every known player's three sheets hold one
/// entry for each round played: where the round had index `N`, that is
/// `N + 1` entries.
pub proof fn lemma_round_fills_every_sheet(
    v: TarokView,
    text: Seq<char>,
    directory: PlayerDirectory,
)
    requires
        v.wf(),
        submit(v, text, directory) is Ok,
    ensures
        submit(v, text, directory)->Ok_0.wf(),
        submit(v, text, directory)->Ok_0.round == v.round + 1,
        forall|i: int|
            0 <= i < submit(v, text, directory)->Ok_0.sheets.len() ==> {
                &&& (#[trigger] submit(v, text, directory)->Ok_0.sheets[i]).score.len() == v.round
                    + 1
                &&& submit(v, text, directory)->Ok_0.sheets[i].player_attributes.len() == v.round
                    + 1
                &&& submit(v, text, directory)->Ok_0.sheets[i].radlci.len() == v.round + 1
            },
{
    let scored = scored_submission(v, text, directory)->Ok_0;
    lemma_enrol_all(v, scored.players);
    lemma_commit(v.enrol_all(scored.players), scored, submitted_game(text));
}

/// A player who first appears in the round with index `N` has `None` for the
/// rounds `0` to `N - 1` on all three sheets.
pub proof fn lemma_newcomer_has_gaps(
    v: TarokView,
    text: Seq<char>,
    directory: PlayerDirectory,
    i: int,
    n: int,
)
    requires
        v.wf(),
        submit(v, text, directory) is Ok,
        v.sheets.len() <= i < submit(v, text, directory)->Ok_0.sheets.len(),
        0 <= n < v.round,
    ensures
        submit(v, text, directory)->Ok_0.sheets[i].score[n] is None,
        submit(v, text, directory)->Ok_0.sheets[i].player_attributes[n] is None,
        submit(v, text, directory)->Ok_0.sheets[i].radlci[n] is None,
{
    let scored = scored_submission(v, text, directory)->Ok_0;
    let met = v.enrol_all(scored.players);
    lemma_enrol_all(v, scored.players);
    lemma_enrol_all_newcomers(v, scored.players, i);
    lemma_commit(met, scored, submitted_game(text));
    let sheet = met.sheets[i];
    let after = committed_sheet(sheet, scored, v.round, spends_radlc(met.sheets, scored, i));
    assert(submit(v, text, directory)->Ok_0.sheets[i] == after);
    lemma_first_available(sheet.radlci, 0);
}

/// The sheets that meeting the players of a round adds hold `None` for every
/// round played so far.
pub proof fn lemma_enrol_all_newcomers(v: TarokView, entries: Seq<RoundEntry>, i: int)
    requires
        v.wf(),
        v.sheets.len() <= i < v.enrol_all(entries).sheets.len(),
    ensures
        v.enrol_all(entries).sheets[i].score == gaps::<i32>(v.round),
        v.enrol_all(entries).sheets[i].player_attributes == gaps::<
            Seq<TarokPlayerInput>,
        >(v.round),
        v.enrol_all(entries).sheets[i].radlci == gaps::<Radlc>(
            v.round,
        ),
    decreases entries.len(),
{
    if entries.len() > 0 {
        let before = v.enrol_all(entries.drop_last());
        lemma_enrol_all(v, entries.drop_last());
        assert(v.enrol_all(entries).sheets == enrol(
            before.sheets,
            entries.last().player,
            v.round,
        ));
        if i < before.sheets.len() {
            lemma_enrol_all_newcomers(v, entries.drop_last(), i);
        }
    }
}

/// A line with both parts whose game part names no game is rejected for that
/// reason, whatever else it holds and whoever the directory knows.
pub proof fn lemma_no_game_is_rejected(v: TarokView, text: Seq<char>, directory: PlayerDirectory)
    requires
        round_fragments(text) is Some,
        !names_game(split_on(words(text)[1], ',')),
    ensures
        submit(v, text, directory) == Err::<TarokView, TarokError>(TarokError::NoGameSpecified),
{
}

/// What a round does to the doubling tokens. Every sheet gets exactly one new
/// entry: a token to be spent where the game grants one, which every game but
/// `S1`, `S2` and `S3` does, and `None` where not. Of the older entries, only
/// the declarer's first token to be spent can change, and only where the
/// round doubled; a round of `KL` never doubles, so it changes none.
pub proof fn lemma_round_and_radlci(
    v: TarokView,
    text: Seq<char>,
    directory: PlayerDirectory,
    i: int,
)
    requires
        v.wf(),
        submit(v, text, directory) is Ok,
        0 <= i < submit(v, text, directory)->Ok_0.sheets.len(),
    ensures
        ({
            let scored = scored_submission(v, text, directory)->Ok_0;
            let before = v.enrol_all(scored.players).sheets[i].radlci;
            let after = submit(v, text, directory)->Ok_0.sheets[i].radlci;
            &&& after.len() == v.round + 1
            &&& after[v.round as int] == (if scored.game.grants_radlc() {
                Some(Radlc::Avalible)
            } else {
                None
            })
            &&& scored.game == TarokGame::KL ==> !scored.radlc_used
            &&& scored.radlc_used <==> scored.game != TarokGame::KL && holds_radlc(
                v.sheets,
                scored.players[0].player.id@,
            )
            &&& after.take(v.round as int) == (if scored.radlc_used
                && v.enrol_all(scored.players).sheets[i].player.id@
                == scored.players[0].player.id@ {
                consume(before)
            } else {
                before
            })
        }),
{
    let scored = scored_submission(v, text, directory)->Ok_0;
    let met = v.enrol_all(scored.players);
    lemma_enrol_all(v, scored.players);
    lemma_commit(met, scored, submitted_game(text));
    let sheet = met.sheets[i];
    assert(submit(v, text, directory)->Ok_0.sheets[i] == committed_sheet(
        sheet,
        scored,
        v.round,
        spends_radlc(met.sheets, scored, i),
    ));
    lemma_first_available(sheet.radlci, 0);
    let ids = sheet_ids(met.sheets);
    lemma_position_from(ids, scored.players[0].player.id@, 0);
    assert(ids[i] == sheet.player.id@);
    if sheet.player.id@ == scored.players[0].player.id@ {
        match position(ids, scored.players[0].player.id@) {
            Some(j) => {
                if j < i {
                    assert(ids[j] != ids[i]);
                }
            },
            None => {},
        }
    }
}

/// Asking for the state twice with no round in between gives the same
/// report twice and leaves the round counter alone: the report is drawn from
/// the ledgers alone, and drawing it leaves them as they were.
pub proof fn lemma_report_repeats(session: Tarok, after_first: Tarok, first: TarokReport, second: TarokReport)
    requires
        after_first@ == session@,
        first@ == report_of(session@),
        second@ == report_of(after_first@),
    ensures
        first@ == second@,
        after_first@.round == session@.round,
        second@.ledgers == session@,
{
}

/// No round line is rejected for a player without sheets: the players of a
/// round are given sheets before the round is entered.
pub proof fn lemma_no_round_lacks_a_sheet(v: TarokView, text: Seq<char>, directory: PlayerDirectory)
    requires
        v.wf(),
    ensures
        submit(v, text, directory) != Err::<TarokView, TarokError>(
            TarokError::LedgerInvariantViolation,
        ),
        scored_submission(v, text, directory) matches Ok(scored) ==> knows_all(
            v.enrol_all(scored.players).sheets,
            scored.players,
        ),
{
    if let Ok(scored) = scored_submission(v, text, directory) {
        lemma_enrol_all(v, scored.players);
    }
}

} // verus!
