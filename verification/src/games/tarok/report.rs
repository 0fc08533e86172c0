//! What a session can tell of itself: a copy of its ledgers, and for each
//! player the sum, the least and the greatest of the points.

use vstd::prelude::*;

use crate::games::tarok::enums::{Radlc, TarokGameInput, TarokPlayerInput};
use crate::games::tarok::sheets::{
    attribute_rows, copy_inputs, count_available, game_rows, sheets_of, PlayerSheet, SheetView,
    TarokView,
};

verus! {

/// What every token of a player that is still to be spent costs at the end.
pub open spec fn unused_radlc_penalty() -> int {
    100
}

/// The points of a sheet added up; rounds without an entry add nothing.
pub open spec fn sum_present(score: Seq<Option<i32>>) -> int
    decreases score.len(),
{
    if score.len() == 0 {
        0
    } else {
        sum_present(score.drop_last()) + match score.last() {
            Some(points) => points as int,
            None => 0,
        }
    }
}

/// The least points of a sheet, `None` where it has no entry.
pub open spec fn min_present(score: Seq<Option<i32>>) -> Option<i32>
    decreases score.len(),
{
    if score.len() == 0 {
        None
    } else {
        match (min_present(score.drop_last()), score.last()) {
            (Some(least), Some(points)) => Some(
                if points < least {
                    points
                } else {
                    least
                },
            ),
            (Some(least), None) => Some(least),
            (None, last) => last,
        }
    }
}

/// The greatest points of a sheet, `None` where it has no entry.
pub open spec fn max_present(score: Seq<Option<i32>>) -> Option<i32>
    decreases score.len(),
{
    if score.len() == 0 {
        None
    } else {
        match (max_present(score.drop_last()), score.last()) {
            (Some(greatest), Some(points)) => Some(
                if points > greatest {
                    points
                } else {
                    greatest
                },
            ),
            (Some(greatest), None) => Some(greatest),
            (None, last) => last,
        }
    }
}

/// What `min_present` gives stands on the sheet and is no greater than any
/// entry; it gives nothing only where the sheet has no entry.
pub proof fn lemma_min_present(score: Seq<Option<i32>>)
    ensures
        match min_present(score) {
            Some(least) => (exists|i: int| 0 <= i < score.len() && #[trigger] score[i] == Some(least))
                && forall|j: int|
                0 <= j < score.len() && (#[trigger] score[j]) is Some ==> least <= score[j]->0,
            None => forall|j: int| 0 <= j < score.len() ==> (#[trigger] score[j]) is None,
        },
    decreases score.len(),
{
    if score.len() > 0 {
        let before = score.drop_last();
        lemma_min_present(before);
        assert forall|j: int| 0 <= j < before.len() implies before[j] == score[j] by {}
        match min_present(score) {
            Some(least) => {
                match min_present(before) {
                    Some(m) => {
                        let i = choose|i: int| 0 <= i < before.len() && #[trigger] before[i] == Some(m);
                        assert(score[i] == Some(m));
                        if least != m {
                            assert(score[score.len() - 1] == Some(least));
                        }
                    },
                    None => {
                        assert(score[score.len() - 1] == Some(least));
                    },
                }
                assert forall|j: int|
                    0 <= j < score.len() && (#[trigger] score[j]) is Some implies least
                    <= score[j]->0 by {
                    if j < before.len() {
                        assert(before[j] is Some);
                    }
                }
            },
            None => {
                assert forall|j: int| 0 <= j < score.len() implies (#[trigger] score[j]) is None by {
                    if j < before.len() {
                        assert(before[j] is None);
                    }
                }
            },
        }
    }
}

/// What `max_present` gives stands on the sheet and is no less than any entry;
/// it gives nothing only where the sheet has no entry.
pub proof fn lemma_max_present(score: Seq<Option<i32>>)
    ensures
        match max_present(score) {
            Some(greatest) => (exists|i: int|
                0 <= i < score.len() && #[trigger] score[i] == Some(greatest)) && forall|j: int|
                0 <= j < score.len() && (#[trigger] score[j]) is Some ==> greatest >= score[j]->0,
            None => forall|j: int| 0 <= j < score.len() ==> (#[trigger] score[j]) is None,
        },
    decreases score.len(),
{
    if score.len() > 0 {
        let before = score.drop_last();
        lemma_max_present(before);
        assert forall|j: int| 0 <= j < before.len() implies before[j] == score[j] by {}
        match max_present(score) {
            Some(greatest) => {
                match max_present(before) {
                    Some(m) => {
                        let i = choose|i: int| 0 <= i < before.len() && #[trigger] before[i] == Some(m);
                        assert(score[i] == Some(m));
                        if greatest != m {
                            assert(score[score.len() - 1] == Some(greatest));
                        }
                    },
                    None => {
                        assert(score[score.len() - 1] == Some(greatest));
                    },
                }
                assert forall|j: int|
                    0 <= j < score.len() && (#[trigger] score[j]) is Some implies greatest
                    >= score[j]->0 by {
                    if j < before.len() {
                        assert(before[j] is Some);
                    }
                }
            },
            None => {
                assert forall|j: int| 0 <= j < score.len() implies (#[trigger] score[j]) is None by {
                    if j < before.len() {
                        assert(before[j] is None);
                    }
                }
            },
        }
    }
}

/// A player's standing: the points added up, less the penalty for every
/// doubling token that is still to be spent; and the least and the greatest
/// points of a round, both 0 where the player has no entry.
pub open spec fn standing(sheet: SheetView) -> (int, int, int) {
    (
        sum_present(sheet.score) - unused_radlc_penalty() * count_available(sheet.radlci),
        match min_present(sheet.score) {
            Some(least) => least as int,
            None => 0,
        },
        match max_present(sheet.score) {
            Some(greatest) => greatest as int,
            None => 0,
        },
    )
}

/// The standings of all players, sheet by sheet.
pub open spec fn standings(sheets: Seq<SheetView>) -> Seq<(int, int, int)> {
    Seq::new(sheets.len(), |i: int| standing(sheets[i]))
}

/// Some standings as numbers.
pub open spec fn standings_of(sums: Seq<(i128, i32, i32)>) -> Seq<(int, int, int)> {
    Seq::new(sums.len(), |i: int| (sums[i].0 as int, sums[i].1 as int, sums[i].2 as int))
}

/// A sheet's points add up to no more than 2^31 apiece.
proof fn lemma_sum_present_bound(score: Seq<Option<i32>>)
    ensures
        -0x8000_0000 * score.len() <= sum_present(score) <= 0x8000_0000 * score.len(),
    decreases score.len(),
{
    if score.len() > 0 {
        lemma_sum_present_bound(score.drop_last());
    }
}

/// No more tokens are still to be spent than there are entries.
proof fn lemma_count_available_bound(radlci: Seq<Option<Radlc>>)
    ensures
        count_available(radlci) <= radlci.len(),
    decreases radlci.len(),
{
    if radlci.len() > 0 {
        lemma_count_available_bound(radlci.drop_last());
    }
}

/// The points of a sheet added up, with the least and the greatest.
pub fn sum_scores(score: &Vec<Option<i32>>) -> (r: (i128, Option<i32>, Option<i32>))
    ensures
        r.0 == sum_present(score@),
        r.1 == min_present(score@),
        r.2 == max_present(score@),
        -0x8000_0000 * score.len() <= r.0 <= 0x8000_0000 * score.len(),
{
    let mut sum: i128 = 0;
    let mut min: Option<i32> = None;
    let mut max: Option<i32> = None;
    let mut i: usize = 0;
    assert(score@.take(0) == Seq::<Option<i32>>::empty());
    while i < score.len()
        invariant
            i <= score.len(),
            sum == sum_present(score@.take(i as int)),
            min == min_present(score@.take(i as int)),
            max == max_present(score@.take(i as int)),
        decreases score.len() - i,
    {
        proof {
            assert(score@.take(i + 1).drop_last() == score@.take(i as int));
            assert(score@.take(i + 1).last() == score@[i as int]);
            lemma_sum_present_bound(score@.take(i as int));
            assert(0x8000_0000 * score@.take(i as int).len() <= 0x8000_0000
                * 0xffff_ffff_ffff_ffff) by (nonlinear_arith)
                requires
                    score@.take(i as int).len() <= 0xffff_ffff_ffff_ffff,
            ;
        }
        if let Some(points) = score[i] {
            sum = sum + points as i128;
            min = match min {
                Some(least) => Some(
                    if points < least {
                        points
                    } else {
                        least
                    },
                ),
                None => Some(points),
            };
            max = match max {
                Some(greatest) => Some(
                    if points > greatest {
                        points
                    } else {
                        greatest
                    },
                ),
                None => Some(points),
            };
        }
        i += 1;
    }
    proof {
        assert(score@.take(score.len() as int) == score@);
        lemma_sum_present_bound(score@);
    }
    (sum, min, max)
}

/// How many of a player's doubling tokens are still to be spent.
pub fn count_unused_radlci(radlci: &Vec<Option<Radlc>>) -> (r: usize)
    ensures
        r == count_available(radlci@),
{
    let mut unused_radlci: usize = 0;
    let mut i: usize = 0;
    assert(radlci@.take(0) == Seq::<Option<Radlc>>::empty());
    while i < radlci.len()
        invariant
            i <= radlci.len(),
            unused_radlci == count_available(radlci@.take(i as int)),
            unused_radlci <= i,
        decreases radlci.len() - i,
    {
        assert(radlci@.take(i + 1).drop_last() == radlci@.take(i as int));
        assert(radlci@.take(i + 1).last() == radlci@[i as int]);
        if let Some(Radlc::Avalible) = radlci[i] {
            unused_radlci += 1;
        }
        i += 1;
    }
    assert(radlci@.take(radlci.len() as int) == radlci@);
    unused_radlci
}

/// The standing of every player, sheet by sheet.
pub fn sum_score_by_players(sheets: &Vec<PlayerSheet>) -> (r: Vec<(i128, i32, i32)>)
    ensures
        standings_of(r@) == standings(sheets_of(sheets@)),
{
    let mut totals: Vec<(i128, i32, i32)> = Vec::new();
    let mut i: usize = 0;
    while i < sheets.len()
        invariant
            i <= sheets.len(),
            totals.len() == i,
            forall|j: int|
                0 <= j < i ==> (
                    (#[trigger] totals[j]).0 as int,
                    totals[j].1 as int,
                    totals[j].2 as int,
                ) == standing(sheets[j]@),
        decreases sheets.len() - i,
    {
        let (sum, min, max) = sum_scores(&sheets[i].score);
        // score penalty for radlc
        let unused_radlci = count_unused_radlci(&sheets[i].radlci);
        assert(0x8000_0000 * sheets[i as int].score.len() <= 0x8000_0000 * 0xffff_ffff_ffff_ffff)
            by (nonlinear_arith)
            requires
                sheets[i as int].score.len() <= 0xffff_ffff_ffff_ffff,
        ;
        let sum = sum - 100 * (unused_radlci as i128);
        let min = match min {
            Some(min) => min,
            None => 0,
        };
        let max = match max {
            Some(max) => max,
            None => 0,
        };
        totals.push((sum, min, max));
        i += 1;
    }
    assert(standings_of(totals@) == standings(sheets_of(sheets@)));
    totals
}

/// What a session tells of itself.
#[derive(Debug, PartialEq, Eq)]
pub struct TarokReport {
    /// The known players' sheets, in the order in which the players joined.
    pub sheets: Vec<PlayerSheet>,
    /// How many rounds were played.
    pub round: usize,
    /// Each player's standing: sum, least and greatest.
    pub sum_by_player: Vec<(i128, i32, i32)>,
    /// The tokens of each round's game part.
    pub game_attributes: Vec<Vec<TarokGameInput>>,
}

/// A report as sequences.
pub struct ReportView {
    pub ledgers: TarokView,
    pub sum_by_player: Seq<(int, int, int)>,
}

impl View for TarokReport {
    type V = ReportView;

    open spec fn view(&self) -> ReportView {
        ReportView {
            ledgers: TarokView {
                sheets: sheets_of(self.sheets@),
                game_attributes: game_rows(self.game_attributes@),
                round: self.round as nat,
            },
            sum_by_player: standings_of(self.sum_by_player@),
        }
    }
}

/// The report of a session whose ledgers are these.
pub open spec fn report_of(v: TarokView) -> ReportView {
    ReportView { ledgers: v, sum_by_player: standings(v.sheets) }
}

/// A copy of a sheet.
pub fn copy_rows<T: Copy>(rows: &Vec<T>) -> (r: Vec<T>)
    ensures
        r@ == rows@,
{
    let mut r: Vec<T> = Vec::new();
    let mut i: usize = 0;
    while i < rows.len()
        invariant
            i <= rows.len(),
            r@ == rows@.take(i as int),
        decreases rows.len() - i,
    {
        assert(rows@.take(i + 1) == rows@.take(i as int).push(rows@[i as int]));
        r.push(rows[i]);
        i += 1;
    }
    assert(rows@.take(rows.len() as int) == rows@);
    r
}

/// A copy of what each round said of a player.
pub fn copy_attribute_rows(rows: &Vec<Option<Vec<TarokPlayerInput>>>) -> (r: Vec<
    Option<Vec<TarokPlayerInput>>,
>)
    ensures
        attribute_rows(r@) == attribute_rows(rows@),
{
    let mut r: Vec<Option<Vec<TarokPlayerInput>>> = Vec::new();
    let mut i: usize = 0;
    while i < rows.len()
        invariant
            i <= rows.len(),
            r.len() == i,
            forall|j: int| 0 <= j < i ==> attribute_rows(r@)[j] == attribute_rows(rows@)[j],
        decreases rows.len() - i,
    {
        let row = match &rows[i] {
            Some(inputs) => Some(copy_inputs(inputs)),
            None => None,
        };
        let ghost before = r@;
        r.push(row);
        assert forall|j: int| 0 <= j < i + 1 implies attribute_rows(r@)[j] == attribute_rows(
            rows@,
        )[j] by {
            if j < i {
                assert(r@[j] == before[j]);
                assert(attribute_rows(before)[j] == attribute_rows(rows@)[j]);
            }
        }
        i += 1;
    }
    assert(attribute_rows(r@) == attribute_rows(rows@));
    r
}

/// A copy of the known players' sheets.
pub fn copy_sheets(sheets: &Vec<PlayerSheet>) -> (r: Vec<PlayerSheet>)
    ensures
        sheets_of(r@) == sheets_of(sheets@),
{
    let mut r: Vec<PlayerSheet> = Vec::new();
    let mut i: usize = 0;
    while i < sheets.len()
        invariant
            i <= sheets.len(),
            r.len() == i,
            forall|j: int| 0 <= j < i ==> (#[trigger] r[j])@ == sheets[j]@,
        decreases sheets.len() - i,
    {
        r.push(
            PlayerSheet {
                player: sheets[i].player.clone(),
                score: copy_rows(&sheets[i].score),
                player_attributes: copy_attribute_rows(&sheets[i].player_attributes),
                radlci: copy_rows(&sheets[i].radlci),
            },
        );
        i += 1;
    }
    assert(sheets_of(r@) == sheets_of(sheets@));
    r
}

/// A copy of the tokens of each round's game part.
pub fn copy_game_rows(rows: &Vec<Vec<TarokGameInput>>) -> (r: Vec<Vec<TarokGameInput>>)
    ensures
        game_rows(r@) == game_rows(rows@),
{
    let mut r: Vec<Vec<TarokGameInput>> = Vec::new();
    let mut i: usize = 0;
    while i < rows.len()
        invariant
            i <= rows.len(),
            r.len() == i,
            forall|j: int| 0 <= j < i ==> (#[trigger] r[j])@ == rows[j]@,
        decreases rows.len() - i,
    {
        r.push(copy_rows(&rows[i]));
        i += 1;
    }
    assert(game_rows(r@) == game_rows(rows@));
    r
}

} // verus!
