//! The report of a session of Tarok as a page: a table with one column for
//! each player and one row for each round, between a row of doubling tokens
//! and a row of sums.

use vstd::prelude::*;

use crate::games::tarok::enums::{Radlc, TarokPlayerAttibute, TarokPlayerInput};
use crate::games::tarok::report::{ReportView, TarokReport};
use crate::games::tarok::sheets::{attribute_rows, sheets_of, PlayerSheet, SheetView};
use crate::text::{append_chars, append_str, decimal, decimal_chars, string_of};

verus! {

/// The mark that a token said of a player leaves beside the points. A number
/// leaves none.
pub open spec fn marker_text(input: TarokPlayerInput) -> Seq<char> {
    match input {
        TarokPlayerInput::PlayerDiff(_) => ""@,
        TarokPlayerInput::PlayerAttribute(a) => match a {
            TarokPlayerAttibute::M => "<i title='Mond snipe' class='fas fa-crosshairs'></i>"@,
            TarokPlayerAttibute::R => "<i title='Renons' class='fas fa-hand-middle-finger'></i>"@,
            TarokPlayerAttibute::T => "<i title='Renons' class='fas fa-users-slash'></i>"@,
            TarokPlayerAttibute::Ig => "<i title='Renons' class='fas fa-dice'></i>"@,
            TarokPlayerAttibute::Sl => "<i class='fal fa-truck-container'></i>"@,
        },
    }
}

/// The marks of some tokens, one after the other.
pub open spec fn markers_text(inputs: Seq<TarokPlayerInput>) -> Seq<char>
    decreases inputs.len(),
{
    if inputs.len() == 0 {
        Seq::empty()
    } else {
        markers_text(inputs.drop_last()) + marker_text(inputs.last())
    }
}

/// What stands for a doubling token: ` O` for one to be spent, ` Ø` for one
/// that was spent, nothing for a round that granted none.
pub open spec fn radlc_text(radlc: Option<Radlc>) -> Seq<char> {
    match radlc {
        Some(Radlc::Avalible) => " O"@,
        Some(Radlc::Used) => " Ø"@,
        None => ""@,
    }
}

/// What stands for a player's doubling tokens, one after the other.
pub open spec fn radlci_text(radlci: Seq<Option<Radlc>>) -> Seq<char>
    decreases radlci.len(),
{
    if radlci.len() == 0 {
        Seq::empty()
    } else {
        radlci_text(radlci.drop_last()) + radlc_text(radlci.last())
    }
}

/// The marks of what a round said of a player, nothing where the sheet has
/// no entry for the round.
pub open spec fn aditional_markers_text(
    rows: Seq<Option<Seq<TarokPlayerInput>>>,
    round: int,
) -> Seq<char> {
    if 0 <= round < rows.len() && rows[round] is Some {
        markers_text(rows[round]->0)
    } else {
        Seq::empty()
    }
}

/// How the points of a round are set off: as the player's greatest, else as
/// the player's least, else not at all.
pub open spec fn class_text(points: int, least: int, greatest: int) -> Seq<char> {
    if points == greatest {
        "class='biggest'"@
    } else if points == least {
        "class='smallest'"@
    } else {
        ""@
    }
}

/// The cell of a player for a round: the points with their marks, or an
/// empty cell where the sheet has no entry.
pub open spec fn score_cell_text(sheet: SheetView, least: int, greatest: int, round: int) -> Seq<
    char,
> {
    if 0 <= round < sheet.score.len() && sheet.score[round] is Some {
        "<td "@ + class_text(sheet.score[round]->0 as int, least, greatest) + ">"@ + decimal(
            sheet.score[round]->0 as int,
        ) + " "@ + aditional_markers_text(sheet.player_attributes, round) + "</td>"@
    } else {
        "<td></td>"@
    }
}

/// The standing of the player at place `i`; all zero where the report holds
/// none.
pub open spec fn standing_at(sums: Seq<(int, int, int)>, i: int) -> (int, int, int) {
    if 0 <= i < sums.len() {
        sums[i]
    } else {
        (0, 0, 0)
    }
}

/// The cells of the first `n` players: their names.
pub open spec fn name_cells(sheets: Seq<SheetView>, n: nat) -> Seq<char>
    decreases n,
{
    if n == 0 {
        Seq::empty()
    } else {
        name_cells(sheets, (n - 1) as nat) + "<th>"@ + sheets[n - 1].player.name@ + "</th>"@
    }
}

/// The cells of the first `n` players: their doubling tokens.
pub open spec fn radlci_cells(sheets: Seq<SheetView>, n: nat) -> Seq<char>
    decreases n,
{
    if n == 0 {
        Seq::empty()
    } else {
        radlci_cells(sheets, (n - 1) as nat) + "<th>"@ + radlci_text(sheets[n - 1].radlci)
            + "</th>"@
    }
}

/// The cells of the first `n` players for a round.
pub open spec fn score_cells(report: ReportView, round: int, n: nat) -> Seq<char>
    decreases n,
{
    if n == 0 {
        Seq::empty()
    } else {
        score_cells(report, round, (n - 1) as nat) + score_cell_text(
            report.ledgers.sheets[n - 1],
            standing_at(report.sum_by_player, n - 1).1,
            standing_at(report.sum_by_player, n - 1).2,
            round,
        )
    }
}

/// The rows of the first `rounds` rounds.
pub open spec fn score_rows(report: ReportView, rounds: nat) -> Seq<char>
    decreases rounds,
{
    if rounds == 0 {
        Seq::empty()
    } else {
        score_rows(report, (rounds - 1) as nat) + "<tr>"@ + score_cells(
            report,
            rounds - 1,
            report.ledgers.sheets.len(),
        ) + "</tr>"@
    }
}

/// The cells of the first `n` players: their sums, nothing where the report
/// holds none.
pub open spec fn sum_cells(report: ReportView, n: nat) -> Seq<char>
    decreases n,
{
    if n == 0 {
        Seq::empty()
    } else {
        sum_cells(report, (n - 1) as nat) + "<th>"@ + (if n - 1 < report.sum_by_player.len() {
            decimal(report.sum_by_player[n - 1].0)
        } else {
            Seq::empty()
        }) + "</th>"@
    }
}

/// What opens the page.
pub open spec fn html_head() -> Seq<char> {
    "<!DOCTYPE html><html lang='en'><head><link rel='stylesheet' href='https://pro.fontawesome.com/releases/v5.10.0/css/all.css'
    integrity='sha384-AYmEC3Yw5cVb3ZcuHtOA93w35dYTsvhLPVnYs9eStHfGJvOvKxVfELGroGkvsg+p' crossorigin='anonymous' />
    <meta charset='UTF-8'><meta http-equiv='X-UA-Compatible' content='IE=edge'><meta name='viewport' content='width=device-width, initial-scale=1.0'>
    <title>Document</title></head><body><style>
    table{width: 100%;text-align: center;}tr:nth-child(2n+1) {background-color: rgb(229 228 228)}.biggest {color: 
    green;}.smallest {color: red}</style><table>"@
}

/// What closes the page.
pub open spec fn html_tail() -> Seq<char> {
    "</table>
    <i title='Renons' class='fa-solid fa-truck-tow'></i>
    <i class='fa-solid fa-truck-tow'></i>
    <i class='fal fa-truck-container'></i>
    </body>
    </html>"@
}

/// The page of a report: the names, the doubling tokens, one row for each
/// round, and the sums.
pub open spec fn score_table_html(report: ReportView) -> Seq<char> {
    let players = report.ledgers.sheets.len();
    html_head() + "<tr>"@ + name_cells(report.ledgers.sheets, players) + "</tr>"@ + "<tr>"@
        + radlci_cells(report.ledgers.sheets, players) + "</tr>"@ + score_rows(
        report,
        report.ledgers.round,
    ) + "<tr>"@ + sum_cells(report, players) + "</tr>"@ + html_tail()
}

/// What opens the page.
pub fn get_html_head() -> (r: &'static str)
    ensures
        r@ == html_head(),
{
    "<!DOCTYPE html><html lang='en'><head><link rel='stylesheet' href='https://pro.fontawesome.com/releases/v5.10.0/css/all.css'
    integrity='sha384-AYmEC3Yw5cVb3ZcuHtOA93w35dYTsvhLPVnYs9eStHfGJvOvKxVfELGroGkvsg+p' crossorigin='anonymous' />
    <meta charset='UTF-8'><meta http-equiv='X-UA-Compatible' content='IE=edge'><meta name='viewport' content='width=device-width, initial-scale=1.0'>
    <title>Document</title></head><body><style>
    table{width: 100%;text-align: center;}tr:nth-child(2n+1) {background-color: rgb(229 228 228)}.biggest {color: 
    green;}.smallest {color: red}</style><table>"
}

/// What closes the page.
pub fn get_html_tail() -> (r: &'static str)
    ensures
        r@ == html_tail(),
{
    "</table>
    <i title='Renons' class='fa-solid fa-truck-tow'></i>
    <i class='fa-solid fa-truck-tow'></i>
    <i class='fal fa-truck-container'></i>
    </body>
    </html>"
}

/// The mark that a token said of a player leaves beside the points.
pub fn tarok_player_input_to_string(x: &TarokPlayerInput) -> (r: &'static str)
    ensures
        r@ == marker_text(*x),
{
    match x {
        TarokPlayerInput::PlayerDiff(_) => "",
        TarokPlayerInput::PlayerAttribute(a) => match a {
            TarokPlayerAttibute::M => "<i title='Mond snipe' class='fas fa-crosshairs'></i>",
            TarokPlayerAttibute::R => "<i title='Renons' class='fas fa-hand-middle-finger'></i>",
            TarokPlayerAttibute::T => "<i title='Renons' class='fas fa-users-slash'></i>",
            TarokPlayerAttibute::Ig => "<i title='Renons' class='fas fa-dice'></i>",
            TarokPlayerAttibute::Sl => "<i class='fal fa-truck-container'></i>",
        },
    }
}

/// What stands for a player's doubling tokens.
pub fn radlci_to_string(radlci: &Vec<Option<Radlc>>) -> (r: Vec<char>)
    ensures
        r@ == radlci_text(radlci@),
{
    let mut out: Vec<char> = Vec::new();
    let mut i: usize = 0;
    assert(radlci@.take(0) == Seq::<Option<Radlc>>::empty());
    while i < radlci.len()
        invariant
            i <= radlci.len(),
            out@ == radlci_text(radlci@.take(i as int)),
        decreases radlci.len() - i,
    {
        assert(radlci@.take(i + 1).drop_last() == radlci@.take(i as int));
        assert(radlci@.take(i + 1).last() == radlci@[i as int]);
        match radlci[i] {
            Some(Radlc::Avalible) => append_str(&mut out, " O"),
            Some(Radlc::Used) => append_str(&mut out, " Ø"),
            None => append_str(&mut out, ""),
        }
        i += 1;
    }
    assert(radlci@.take(radlci.len() as int) == radlci@);
    out
}

/// The marks of what a round said of a player.
pub fn get_aditional_markers(rows: &Vec<Option<Vec<TarokPlayerInput>>>, round: usize) -> (r: Vec<
    char,
>)
    ensures
        r@ == aditional_markers_text(attribute_rows(rows@), round as int),
{
    let mut out: Vec<char> = Vec::new();
    if round >= rows.len() {
        return out;
    }
    match &rows[round] {
        None => out,
        Some(inputs) => {
            let mut i: usize = 0;
            assert(inputs@.take(0) == Seq::<TarokPlayerInput>::empty());
            while i < inputs.len()
                invariant
                    i <= inputs.len(),
                    out@ == markers_text(inputs@.take(i as int)),
                decreases inputs.len() - i,
            {
                assert(inputs@.take(i + 1).drop_last() == inputs@.take(i as int));
                assert(inputs@.take(i + 1).last() == inputs@[i as int]);
                append_str(&mut out, tarok_player_input_to_string(&inputs[i]));
                i += 1;
            }
            assert(inputs@.take(inputs.len() as int) == inputs@);
            out
        },
    }
}

/// Appends the cell of a player for a round.
fn push_score_cell(out: &mut Vec<char>, sheet: &PlayerSheet, min: i32, max: i32, round: usize)
    ensures
        final(out)@ == old(out)@ + score_cell_text(sheet@, min as int, max as int, round as int),
{
    if round < sheet.score.len() {
        if let Some(val) = sheet.score[round] {
            let ghost cell = score_cell_text(sheet@, min as int, max as int, round as int);
            append_str(out, "<td ");
            let mut class = "";
            if val == min {
                class = "class='smallest'";
            }
            if val == max {
                class = "class='biggest'";
            }
            append_str(out, class);
            append_str(out, ">");
            let points = decimal_chars(val as i128);
            append_chars(out, &points);
            append_str(out, " ");
            let aditional_markers = get_aditional_markers(&sheet.player_attributes, round);
            append_chars(out, &aditional_markers);
            append_str(out, "</td>");
            assert(out@ =~= old(out)@ + cell);
            return ;
        }
    }
    append_str(out, "<td></td>");
}

/// The page of a report.
pub fn build_score_table_html(report: &TarokReport) -> (r: String)
    ensures
        r@ == score_table_html(report@),
{
    let ghost view = report@;
    let ghost sheets = view.ledgers.sheets;
    let players = report.sheets.len();
    assert(sheets.len() == players);
    let mut out: Vec<char> = Vec::new();
    append_str(&mut out, get_html_head());
    // generate table header
    append_str(&mut out, "<tr>");
    let ghost start = out@;
    let mut i: usize = 0;
    while i < players
        invariant
            i <= players,
            players == report.sheets.len(),
            sheets == sheets_of(report.sheets@),
            out@ == start + name_cells(sheets, i as nat),
        decreases players - i,
    {
        assert(sheets[i as int] == report.sheets@[i as int]@);
        append_str(&mut out, "<th>");
        append_str(&mut out, report.sheets[i].player.name.as_str());
        append_str(&mut out, "</th>");
        assert(out@ =~= start + name_cells(sheets, (i + 1) as nat));
        i += 1;
    }
    append_str(&mut out, "</tr>");
    // generate radlc row
    append_str(&mut out, "<tr>");
    let ghost start = out@;
    let mut i: usize = 0;
    while i < players
        invariant
            i <= players,
            players == report.sheets.len(),
            sheets == sheets_of(report.sheets@),
            out@ == start + radlci_cells(sheets, i as nat),
        decreases players - i,
    {
        assert(sheets[i as int] == report.sheets@[i as int]@);
        append_str(&mut out, "<th>");
        let content = radlci_to_string(&report.sheets[i].radlci);
        append_chars(&mut out, &content);
        append_str(&mut out, "</th>");
        assert(out@ =~= start + radlci_cells(sheets, (i + 1) as nat));
        i += 1;
    }
    append_str(&mut out, "</tr>");
    // generate table rows
    let ghost start = out@;
    let mut index: usize = 0;
    while index < report.round
        invariant
            index <= report.round,
            players == report.sheets.len(),
            view == report@,
            sheets == view.ledgers.sheets,
            out@ == start + score_rows(view, index as nat),
        decreases report.round - index,
    {
        let ghost row_start = out@;
        append_str(&mut out, "<tr>");
        let ghost cells_start = out@;
        let mut i: usize = 0;
        while i < players
            invariant
                i <= players,
                players == report.sheets.len(),
                view == report@,
                sheets == view.ledgers.sheets,
                out@ == cells_start + score_cells(view, index as int, i as nat),
            decreases players - i,
        {
            assert(sheets[i as int] == report.sheets@[i as int]@);
            let (min, max) = if i < report.sum_by_player.len() {
                assert(view.sum_by_player[i as int] == (
                    report.sum_by_player@[i as int].0 as int,
                    report.sum_by_player@[i as int].1 as int,
                    report.sum_by_player@[i as int].2 as int,
                ));
                (report.sum_by_player[i].1, report.sum_by_player[i].2)
            } else {
                (0, 0)
            };
            push_score_cell(&mut out, &report.sheets[i], min, max, index);
            assert(out@ =~= cells_start + score_cells(view, index as int, (i + 1) as nat));
            i += 1;
        }
        append_str(&mut out, "</tr>");
        assert(out@ =~= start + score_rows(view, (index + 1) as nat));
        index += 1;
    }
    // final score
    let ghost rows_end = out@;
    append_str(&mut out, "<tr>");
    let ghost start = out@;
    let mut i: usize = 0;
    while i < players
        invariant
            i <= players,
            players == report.sheets.len(),
            view == report@,
            out@ == start + sum_cells(view, i as nat),
        decreases players - i,
    {
        append_str(&mut out, "<th>");
        if i < report.sum_by_player.len() {
            assert(view.sum_by_player[i as int].0 == report.sum_by_player@[i as int].0);
            let sum = decimal_chars(report.sum_by_player[i].0);
            append_chars(&mut out, &sum);
        }
        append_str(&mut out, "</th>");
        assert(out@ =~= start + sum_cells(view, (i + 1) as nat));
        i += 1;
    }
    append_str(&mut out, "</tr>");
    append_str(&mut out, get_html_tail());
    assert(out@ =~= score_table_html(view));
    string_of(&out)
}

} // verus!
