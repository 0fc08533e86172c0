//! A session of the plain score table. A round line is
//! `<command> <name> <points> <name> <points> ...`, one space between its
//! fields. Each player named gets the points on a sheet of their own; a player
//! met for the first time joins with `None` for the rounds played before.

use vstd::prelude::*;

use crate::games::tarok::game::now_text;
use crate::games::tarok::report::{copy_rows, sum_present, sum_scores};
use crate::games::tarok::sheets::{fill_gaps_until_round, filled, gaps};
use crate::models::user::{position, position_from, PlayerDirectory, User};
use crate::text::{
    append_chars, append_str, chars_of, decimal, decimal_chars, parse_chars_i32, parse_i32,
    split_fields, split_on, string_of, texts, to_uppercase, uppercase,
};

verus! {

/// What can go wrong with a round of the plain table. The session is then as
/// it was before the round was handed in.
#[derive(Debug, Clone, Copy, PartialEq, Eq, Structural)]
pub enum TableError {
    /// A player's name is not in the directory.
    UnknownPlayer,
    /// What stands where points are due is no number.
    UnrecognizedScore,
    /// There are more names than points, or more points than names.
    CountMismatch,
    /// The round counter cannot go further.
    RoundLimitReached,
}

impl TableError {
    /// A sentence for the one who handed the round in.
    pub fn message(&self) -> (r: &'static str)
        ensures
            r@ == self.message_text(),
    {
        match self {
            TableError::UnknownPlayer => "Error fetching user from DB",
            TableError::UnrecognizedScore => "Error parsing score",
            TableError::CountMismatch => "Number of users and scores do not match",
            TableError::RoundLimitReached => "No further round can be counted",
        }
    }

    /// The sentence that `message` gives.
    pub open spec fn message_text(self) -> Seq<char> {
        match self {
            TableError::UnknownPlayer => "Error fetching user from DB"@,
            TableError::UnrecognizedScore => "Error parsing score"@,
            TableError::CountMismatch => "Number of users and scores do not match"@,
            TableError::RoundLimitReached => "No further round can be counted"@,
        }
    }
}

/// The sheet of one player.
#[derive(Debug, PartialEq, Eq)]
pub struct TableSheet {
    /// Whose sheet this is.
    pub player: User,
    /// The player's points, round by round.
    pub score: Vec<Option<i32>>,
}

/// The sheet of one player as a sequence.
pub struct TableSheetView {
    pub player: User,
    pub score: Seq<Option<i32>>,
}

impl View for TableSheet {
    type V = TableSheetView;

    open spec fn view(&self) -> TableSheetView {
        TableSheetView { player: self.player, score: self.score@ }
    }
}

/// Some players' sheets as sequences.
pub open spec fn table_sheets_of(sheets: Seq<TableSheet>) -> Seq<TableSheetView> {
    Seq::new(sheets.len(), |i: int| sheets[i]@)
}

/// The identifiers of the players whose sheets these are.
pub open spec fn table_sheet_ids(sheets: Seq<TableSheetView>) -> Seq<Seq<char>> {
    Seq::new(sheets.len(), |i: int| sheets[i].player.id@)
}

/// A session of the plain table as sequences.
pub struct TableView {
    /// The known players' sheets, in the order in which the players joined.
    pub sheets: Seq<TableSheetView>,
    /// How many rounds were played.
    pub round: nat,
}

/// The fields of a round line that name players: every second one, from the
/// second on.
pub open spec fn name_fields(fields: Seq<Seq<char>>) -> Seq<Seq<char>> {
    Seq::new((fields.len() / 2) as nat, |k: int| fields[2 * k + 1])
}

/// The fields of a round line that hold points: every second one, from the
/// third on.
pub open spec fn score_fields(fields: Seq<Seq<char>>) -> Seq<Seq<char>> {
    Seq::new(
        if fields.len() == 0 {
            0nat
        } else {
            ((fields.len() - 1) / 2) as nat
        },
        |k: int| fields[2 * k + 2],
    )
}

/// The players that some names resolve to, in upper case; `None` where the
/// directory does not know one of them.
pub open spec fn resolved_users(names: Seq<Seq<char>>, directory: PlayerDirectory) -> Option<
    Seq<User>,
>
    decreases names.len(),
{
    if names.len() == 0 {
        Some(Seq::empty())
    } else {
        match resolved_users(names.drop_last(), directory) {
            None => None,
            Some(before) => match directory.resolve(uppercase(names.last())) {
                None => None,
                Some(user) => Some(before.push(user)),
            },
        }
    }
}

/// The numbers that some fields spell; `None` where one of them spells none.
pub open spec fn parsed_scores(fields: Seq<Seq<char>>) -> Option<Seq<i32>>
    decreases fields.len(),
{
    if fields.len() == 0 {
        Some(Seq::empty())
    } else {
        match parsed_scores(fields.drop_last()) {
            None => None,
            Some(before) => match parse_i32(fields.last()) {
                None => None,
                Some(points) => Some(before.push(points)),
            },
        }
    }
}

/// The sheets once a player was given points, `round` rounds into the
/// session. The sheet of a known player is brought up to `round` entries and
/// gets the points; a new player joins at the end with `None` for the rounds
/// played before, and the points.
pub open spec fn enter(sheets: Seq<TableSheetView>, player: User, points: i32, round: nat) -> Seq<
    TableSheetView,
> {
    match position(table_sheet_ids(sheets), player.id@) {
        Some(i) => sheets.update(
            i,
            TableSheetView {
                player: sheets[i].player,
                score: filled(sheets[i].score, round).push(Some(points)),
            },
        ),
        None => sheets.push(
            TableSheetView { player, score: gaps::<i32>(round).push(Some(points)) },
        ),
    }
}

/// The sheets once the players of a round were given their points, one after
/// the other.
pub open spec fn enter_all(
    sheets: Seq<TableSheetView>,
    players: Seq<User>,
    points: Seq<i32>,
    round: nat,
) -> Seq<TableSheetView>
    decreases players.len(),
{
    if players.len() == 0 || points.len() == 0 {
        sheets
    } else {
        enter(
            enter_all(sheets, players.drop_last(), points.drop_last(), round),
            players.last(),
            points.last(),
            round,
        )
    }
}

/// What handing in a round line does to a session of at most `limit` rounds:
/// the names are resolved, then the points are read, then the two are
/// counted against each other; the first failure is the round's, and only a
/// round without one is entered.
pub open spec fn table_submit(
    v: TableView,
    text: Seq<char>,
    directory: PlayerDirectory,
    limit: nat,
) -> Result<TableView, TableError> {
    let fields = split_on(text, ' ');
    match resolved_users(name_fields(fields), directory) {
        None => Err(TableError::UnknownPlayer),
        Some(users) => match parsed_scores(score_fields(fields)) {
            None => Err(TableError::UnrecognizedScore),
            Some(points) => if users.len() != points.len() {
                Err(TableError::CountMismatch)
            } else if v.round >= limit {
                Err(TableError::RoundLimitReached)
            } else {
                Ok(
                    TableView {
                        sheets: enter_all(v.sheets, users, points, v.round),
                        round: v.round + 1,
                    },
                )
            },
        },
    }
}

/// What a session answers to a round that was entered as its `round`-th.
pub open spec fn submitted_text(round: nat) -> Seq<char> {
    "Round "@ + decimal(round as int) + " submitted!"@
}

/// The names that a round line asks the directory for, in upper case.
pub open spec fn round_names(text: Seq<char>) -> Seq<Seq<char>> {
    Seq::new(
        name_fields(split_on(text, ' ')).len(),
        |k: int| uppercase(name_fields(split_on(text, ' '))[k]),
    )
}

/// The names that a round line asks the directory for. A directory that was
/// told what a lookup of each of them gave resolves the line's players as
/// those lookups would.
pub fn extract_round_names(message_text: &str) -> (r: Vec<Vec<char>>)
    ensures
        texts(r@) == round_names(message_text@),
{
    let text = chars_of(message_text);
    let fields = split_fields(&text, ' ');
    let ghost names = name_fields(split_on(message_text@, ' '));
    let mut r: Vec<Vec<char>> = Vec::new();
    let mut k: usize = 0;
    while k < fields.len() / 2
        invariant
            k <= fields.len() / 2,
            texts(fields@) == split_on(message_text@, ' '),
            names == name_fields(split_on(message_text@, ' ')),
            r.len() == k,
            forall|j: int| 0 <= j < k ==> (#[trigger] r[j])@ == uppercase(names[j]),
        decreases fields.len() / 2 - k,
    {
        assert(names[k as int] == fields@[2 * k + 1]@) by {
            assert(texts(fields@)[2 * k + 1] == fields@[2 * k + 1]@);
        }
        r.push(to_uppercase(&fields[2 * k + 1]));
        k += 1;
    }
    assert(texts(r@) == round_names(message_text@));
    r
}

/// The players that a round line names.
pub fn extract_round_users(message_text: &str, directory: &PlayerDirectory) -> (r: Result<
    Vec<User>,
    TableError,
>)
    ensures
        match resolved_users(name_fields(split_on(message_text@, ' ')), *directory) {
            Some(users) => r is Ok && r->Ok_0@ == users,
            None => r == Err::<Vec<User>, TableError>(TableError::UnknownPlayer),
        },
{
    let text = chars_of(message_text);
    let fields = split_fields(&text, ' ');
    let ghost names = name_fields(split_on(message_text@, ' '));
    let mut users: Vec<User> = Vec::new();
    let mut k: usize = 0;
    assert(names.take(0) == Seq::<Seq<char>>::empty());
    while k < fields.len() / 2
        invariant
            k <= fields.len() / 2,
            texts(fields@) == split_on(message_text@, ' '),
            names == name_fields(split_on(message_text@, ' ')),
            resolved_users(names.take(k as int), *directory) == Some(users@),
        decreases fields.len() / 2 - k,
    {
        assert(names.take(k + 1).drop_last() == names.take(k as int));
        assert(names.take(k + 1).last() == fields@[2 * k + 1]@) by {
            assert(texts(fields@)[2 * k + 1] == fields@[2 * k + 1]@);
        }
        let name = to_uppercase(&fields[2 * k + 1]);
        match directory.get_user_by_name(&name) {
            Some(user) => users.push(user),
            None => {
                proof {
                    lemma_resolved_users_fail(names, *directory, k + 1);
                }
                return Err(TableError::UnknownPlayer);
            },
        }
        k += 1;
    }
    assert(names.take(k as int) == names);
    Ok(users)
}

/// Where a prefix of the names holds an unknown one, the whole does.
proof fn lemma_resolved_users_fail(names: Seq<Seq<char>>, directory: PlayerDirectory, n: int)
    requires
        0 <= n <= names.len(),
        resolved_users(names.take(n), directory) is None,
    ensures
        resolved_users(names, directory) is None,
    decreases names.len(),
{
    if n < names.len() {
        assert(names.drop_last().take(n) == names.take(n));
        lemma_resolved_users_fail(names.drop_last(), directory, n);
    } else {
        assert(names.take(n) == names);
    }
}

/// The points that a round line holds.
pub fn extract_round_scores(message_text: &str) -> (r: Result<Vec<i32>, TableError>)
    ensures
        match parsed_scores(score_fields(split_on(message_text@, ' '))) {
            Some(points) => r is Ok && r->Ok_0@ == points,
            None => r == Err::<Vec<i32>, TableError>(TableError::UnrecognizedScore),
        },
{
    let text = chars_of(message_text);
    let fields = split_fields(&text, ' ');
    let ghost spelled = score_fields(split_on(message_text@, ' '));
    let count: usize = (fields.len() - 1) / 2;
    let mut scores: Vec<i32> = Vec::new();
    let mut k: usize = 0;
    assert(spelled.take(0) == Seq::<Seq<char>>::empty());
    while k < count
        invariant
            k <= count,
            count == (fields.len() - 1) / 2,
            fields.len() >= 1,
            texts(fields@) == split_on(message_text@, ' '),
            spelled == score_fields(split_on(message_text@, ' ')),
            parsed_scores(spelled.take(k as int)) == Some(scores@),
        decreases count - k,
    {
        assert(spelled.take(k + 1).drop_last() == spelled.take(k as int));
        assert(spelled.take(k + 1).last() == fields@[2 * k + 2]@) by {
            assert(texts(fields@)[2 * k + 2] == fields@[2 * k + 2]@);
        }
        match parse_chars_i32(&fields[2 * k + 2]) {
            Some(points) => scores.push(points),
            None => {
                proof {
                    lemma_parsed_scores_fail(spelled, k + 1);
                }
                return Err(TableError::UnrecognizedScore);
            },
        }
        k += 1;
    }
    assert(spelled.take(k as int) == spelled);
    Ok(scores)
}

/// Where a prefix of the fields holds one that spells no number, the whole
/// does.
proof fn lemma_parsed_scores_fail(fields: Seq<Seq<char>>, n: int)
    requires
        0 <= n <= fields.len(),
        parsed_scores(fields.take(n)) is None,
    ensures
        parsed_scores(fields) is None,
    decreases fields.len(),
{
    if n < fields.len() {
        assert(fields.drop_last().take(n) == fields.take(n));
        lemma_parsed_scores_fail(fields.drop_last(), n);
    } else {
        assert(fields.take(n) == fields);
    }
}

/// Where the sheet of the player of this identifier stands.
pub fn find_table_sheet(sheets: &Vec<TableSheet>, id: &String) -> (r: Option<usize>)
    ensures
        match r {
            Some(i) => i < sheets.len() && position(
                table_sheet_ids(table_sheets_of(sheets@)),
                id@,
            ) == Some(i as int),
            None => position(table_sheet_ids(table_sheets_of(sheets@)), id@) is None,
        },
{
    let ghost ids = table_sheet_ids(table_sheets_of(sheets@));
    let mut i: usize = 0;
    while i < sheets.len()
        invariant
            i <= sheets.len(),
            ids == table_sheet_ids(table_sheets_of(sheets@)),
            position(ids, id@) == position_from(ids, id@, i as int),
        decreases sheets.len() - i,
    {
        assert(ids[i as int] == sheets@[i as int].player.id@);
        if sheets[i].player.id == *id {
            return Some(i);
        }
        i += 1;
    }
    None
}

/// The points of every player added up, sheet by sheet.
pub fn sum_score_by_players(sheets: &Vec<TableSheet>) -> (r: Vec<i128>)
    ensures
        r.len() == sheets.len(),
        forall|i: int| 0 <= i < sheets.len() ==> #[trigger] r[i] == sum_present(sheets[i].score@),
{
    let mut totals: Vec<i128> = Vec::new();
    let mut i: usize = 0;
    while i < sheets.len()
        invariant
            i <= sheets.len(),
            totals.len() == i,
            forall|j: int| 0 <= j < i ==> #[trigger] totals[j] == sum_present(sheets[j].score@),
        decreases sheets.len() - i,
    {
        let (sum, _, _) = sum_scores(&sheets[i].score);
        totals.push(sum);
        i += 1;
    }
    totals
}

/// What a session of the plain table tells of itself.
#[derive(Debug, PartialEq, Eq)]
pub struct TableReport {
    /// The known players' sheets, each brought up to the rounds played.
    pub sheets: Vec<TableSheet>,
    /// How many rounds were played.
    pub round: usize,
    /// Each player's points added up.
    pub final_scores: Vec<i128>,
}

/// The name of the file that holds the report of a plain table that ended at
/// the moment `stamp`.
pub open spec fn table_file_name_text(stamp: Seq<char>) -> Seq<char> {
    stamp + "_table.html"@
}

/// The name of the file for a plain table that ended at the given moment.
pub fn table_file_name_at(stamp: &str) -> (r: String)
    ensures
        r@ == table_file_name_text(stamp@),
{
    let mut out: Vec<char> = Vec::new();
    append_str(&mut out, stamp);
    append_str(&mut out, "_table.html");
    string_of(&out)
}

/// Some sums as numbers.
pub open spec fn totals_of(final_scores: Seq<i128>) -> Seq<int> {
    Seq::new(final_scores.len(), |i: int| final_scores[i] as int)
}

/// A report of the plain table as sequences.
pub struct TableReportView {
    pub sheets: Seq<TableSheetView>,
    pub round: nat,
    pub final_scores: Seq<int>,
}

impl View for TableReport {
    type V = TableReportView;

    open spec fn view(&self) -> TableReportView {
        TableReportView {
            sheets: table_sheets_of(self.sheets@),
            round: self.round as nat,
            final_scores: totals_of(self.final_scores@),
        }
    }
}

/// The report of a session of the plain table: its sheets, each brought up to
/// the rounds played, and each player's points added up.
pub open spec fn table_report_of(v: TableView) -> TableReportView {
    TableReportView {
        sheets: filled_sheets(v.sheets, v.round),
        round: v.round,
        final_scores: Seq::new(
            v.sheets.len(),
            |i: int| sum_present(filled(v.sheets[i].score, v.round)),
        ),
    }
}

/// A session of the plain score table.
#[derive(Debug)]
pub struct Table {
    sheets: Vec<TableSheet>,
    round: usize,
}

impl View for Table {
    type V = TableView;

    closed spec fn view(&self) -> TableView {
        TableView { sheets: table_sheets_of(self.sheets@), round: self.round as nat }
    }
}

/// The sheets, each brought up to `round` entries.
pub open spec fn filled_sheets(sheets: Seq<TableSheetView>, round: nat) -> Seq<TableSheetView> {
    Seq::new(
        sheets.len(),
        |i: int| TableSheetView { player: sheets[i].player, score: filled(sheets[i].score, round) },
    )
}

impl Table {
    /// A session in which nothing was played and nobody is known.
    pub fn new() -> (r: Self)
        ensures
            r@ == (TableView { sheets: Seq::empty(), round: 0 }),
    {
        let r = Self { sheets: Vec::new(), round: 0 };
        assert(r@.sheets == Seq::<TableSheetView>::empty());
        r
    }

    /// Opens the session.
    pub fn start_game(&mut self) -> (r: String)
        ensures
            r@ == "Started a generic game score table!"@,
            *final(self) == *old(self),
    {
        "Started a generic game score table!".to_string()
    }

    /// How many rounds were played.
    pub fn round(&self) -> (r: usize)
        ensures
            r == self@.round,
    {
        self.round
    }

    /// The sheets of the known players, in the order in which they joined.
    pub fn sheets(&self) -> (r: &Vec<TableSheet>)
        ensures
            table_sheets_of(r@) == self@.sheets,
    {
        &self.sheets
    }

    /// Takes a round line. The round is entered and counted, or it is
    /// rejected and the session is as it was.
    pub fn handle_round(&mut self, text: &str, directory: &PlayerDirectory) -> (r: Result<
        String,
        TableError,
    >)
        ensures
            match table_submit(old(self)@, text@, *directory, usize::MAX as nat) {
                Ok(next) => r is Ok && final(self)@ == next && r->Ok_0@ == submitted_text(
                    next.round,
                ),
                Err(e) => r == Err::<String, TableError>(e) && *final(self) == *old(self),
            },
    {
        let users = match extract_round_users(text, directory) {
            Ok(users) => users,
            Err(e) => {
                return Err(e);
            },
        };
        let scores = match extract_round_scores(text) {
            Ok(score) => score,
            Err(e) => {
                return Err(e);
            },
        };
        if scores.len() != users.len() {
            return Err(TableError::CountMismatch);
        }
        if self.round == usize::MAX {
            return Err(TableError::RoundLimitReached);
        }
        let ghost start = table_sheets_of(self.sheets@);
        let ghost round = self.round as nat;
        let mut index: usize = 0;
        assert(users@.take(0) == Seq::<User>::empty());
        while index < users.len()
            invariant
                index <= users.len(),
                users.len() == scores.len(),
                self.round == round,
                table_sheets_of(self.sheets@) == enter_all(
                    start,
                    users@.take(index as int),
                    scores@.take(index as int),
                    round,
                ),
            decreases users.len() - index,
        {
            let ghost before = table_sheets_of(self.sheets@);
            proof {
                assert(users@.take(index + 1).drop_last() == users@.take(index as int));
                assert(scores@.take(index + 1).drop_last() == scores@.take(index as int));
                assert(users@.take(index + 1).last() == users@[index as int]);
                assert(scores@.take(index + 1).last() == scores@[index as int]);
            }
            match find_table_sheet(&self.sheets, &users[index].id) {
                Some(i) => {
                    assert(before[i as int] == self.sheets@[i as int]@);
                    // check for gaps in score (fill gaps with None)
                    fill_gaps_until_round(&mut self.sheets[i].score, self.round);
                    // push latest
                    self.sheets[i].score.push(Some(scores[index]));
                    assert(table_sheets_of(self.sheets@) == enter(
                        before,
                        users@[index as int],
                        scores@[index as int],
                        round,
                    ));
                },
                None => {
                    // if user seen for the first time fill the score with None until this round
                    let mut score: Vec<Option<i32>> = Vec::new();
                    fill_gaps_until_round(&mut score, self.round);
                    assert(score@ == gaps::<i32>(round));
                    score.push(Some(scores[index]));
                    let sheet = TableSheet { player: users[index].clone(), score };
                    self.sheets.push(sheet);
                    assert(table_sheets_of(self.sheets@) == enter(
                        before,
                        users@[index as int],
                        scores@[index as int],
                        round,
                    ));
                },
            }
            index += 1;
        }
        assert(users@.take(users.len() as int) == users@);
        assert(scores@.take(users.len() as int) == scores@);
        self.round += 1;
        let mut out: Vec<char> = Vec::new();
        append_str(&mut out, "Round ");
        let count = decimal_chars(self.round as i128);
        append_chars(&mut out, &count);
        append_str(&mut out, " submitted!");
        Ok(string_of(&out))
    }

    /// The state of the session: a copy of its sheets, each brought up to the
    /// rounds played, with each player's points added up. The sheets of the
    /// session are brought up likewise.
    pub fn get_state(&mut self) -> (r: TableReport)
        ensures
            final(self)@ == (TableView {
                sheets: filled_sheets(old(self)@.sheets, old(self)@.round),
                round: old(self)@.round,
            }),
            r@ == table_report_of(old(self)@),
    {
        let ghost start = table_sheets_of(self.sheets@);
        let mut i: usize = 0;
        while i < self.sheets.len()
            invariant
                i <= self.sheets.len(),
                self.round == old(self).round,
                self.sheets.len() == start.len(),
                start == table_sheets_of(old(self).sheets@),
                forall|j: int| 0 <= j < i ==> (#[trigger] self.sheets[j])@ == filled_sheets(
                    start,
                    self.round as nat,
                )[j],
                forall|j: int| i <= j < self.sheets.len() ==> (#[trigger] self.sheets[j])@ == start[j],
            decreases self.sheets.len() - i,
        {
            fill_gaps_until_round(&mut self.sheets[i].score, self.round);
            i += 1;
        }
        assert(table_sheets_of(self.sheets@) == filled_sheets(start, self.round as nat));
        let final_scores = sum_score_by_players(&self.sheets);
        let mut sheets: Vec<TableSheet> = Vec::new();
        let mut i: usize = 0;
        while i < self.sheets.len()
            invariant
                i <= self.sheets.len(),
                sheets.len() == i,
                forall|j: int| 0 <= j < i ==> (#[trigger] sheets[j])@ == self.sheets[j]@,
            decreases self.sheets.len() - i,
        {
            sheets.push(
                TableSheet {
                    player: self.sheets[i].player.clone(),
                    score: copy_rows(&self.sheets[i].score),
                },
            );
            i += 1;
        }
        assert(table_sheets_of(sheets@) == table_sheets_of(self.sheets@));
        let r = TableReport { sheets, round: self.round, final_scores };
        assert(r@.final_scores == table_report_of(old(self)@).final_scores) by {
            assert forall|i: int| 0 <= i < start.len() implies totals_of(final_scores@)[i]
                == sum_present(filled(start[i].score, self.round as nat)) by {
                assert(self.sheets[i]@ == filled_sheets(start, self.round as nat)[i]);
            }
        }
        r
    }

    /// The name of the file for a game that ends now.
    pub fn generate_file_name(&self) -> (r: String)
        ensures
            exists|stamp: Seq<char>| r@ == table_file_name_text(stamp),
    {
        let stamp = now_text();
        table_file_name_at(stamp.as_str())
    }

    /// Ends the session and gives its last state.
    pub fn end_game(self) -> (r: TableReport)
        ensures
            r@ == table_report_of(self@),
    {
        let mut session = self;
        session.get_state()
    }
}

} // verus!
