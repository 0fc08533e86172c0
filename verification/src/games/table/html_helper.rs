//! The report of a session of the plain table as a page: one column for each
//! player, one row for each round, and a row of sums.

use vstd::prelude::*;

use crate::games::table::game::{
    table_sheets_of, totals_of, TableReport, TableReportView, TableSheet, TableSheetView,
};
use crate::text::{append_chars, append_str, decimal, decimal_chars, string_of};

verus! {

/// What a player's cell for a round holds: the points, or nothing where the
/// sheet has no entry.
pub open spec fn field_text(sheet: TableSheetView, index: int) -> Seq<char> {
    if 0 <= index < sheet.score.len() && sheet.score[index] is Some {
        decimal(sheet.score[index]->0 as int)
    } else {
        Seq::empty()
    }
}

/// The cells of the first `n` players: their names.
pub open spec fn header_cells(sheets: Seq<TableSheetView>, n: nat) -> Seq<char>
    decreases n,
{
    if n == 0 {
        Seq::empty()
    } else {
        header_cells(sheets, (n - 1) as nat) + "<th>"@ + sheets[n - 1].player.name@ + "</th>"@
    }
}

/// The cells of the first `n` players for a round.
pub open spec fn line_cells(sheets: Seq<TableSheetView>, index: int, n: nat) -> Seq<char>
    decreases n,
{
    if n == 0 {
        Seq::empty()
    } else {
        line_cells(sheets, index, (n - 1) as nat) + "<td>"@ + field_text(sheets[n - 1], index)
            + "</td>"@
    }
}

/// The rows of the first `rounds` rounds.
pub open spec fn table_rows(sheets: Seq<TableSheetView>, rounds: nat) -> Seq<char>
    decreases rounds,
{
    if rounds == 0 {
        Seq::empty()
    } else {
        table_rows(sheets, (rounds - 1) as nat) + "<tr>"@ + line_cells(
            sheets,
            rounds - 1,
            sheets.len(),
        ) + "</tr>"@
    }
}

/// The cells of the first `n` players: their sums, 0 where the report holds
/// none.
pub open spec fn total_cells(final_scores: Seq<int>, n: nat) -> Seq<char>
    decreases n,
{
    if n == 0 {
        Seq::empty()
    } else {
        total_cells(final_scores, (n - 1) as nat) + "<th>"@ + decimal(
            if n - 1 < final_scores.len() {
                final_scores[n - 1]
            } else {
                0
            },
        ) + "</th>"@
    }
}

/// The table of a report: the names, one row for each round, and the sums.
pub open spec fn table_text(report: TableReportView) -> Seq<char> {
    "<tr>"@ + header_cells(report.sheets, report.sheets.len()) + "</tr>"@ + table_rows(
        report.sheets,
        report.round,
    ) + "<tr>"@ + total_cells(report.final_scores, report.sheets.len()) + "</tr>"@
}

/// What opens the page.
pub open spec fn html_head() -> Seq<char> {
    "<!DOCTYPE html><html lang='en'><head><meta charset='UTF-8'><meta http-equiv='X-UA-Compatible' content='IE=edge'>
    <meta name='viewport' content='width=device-width, initial-scale=1.0'><title>Document</title></head><body><style>
    table{width: 100%;text-align: center;}tr:nth-child(2n) {color: rgb(128, 128, 128)}th {color: #a6acf3;}.biggest {
    color: green;}.smallest {color: red}td,th {border: 1px solid rgb(190, 190, 190);}</style><table>"@
}

/// What closes the page.
pub open spec fn html_tail() -> Seq<char> {
    "</table></body></html>"@
}

/// The page of a report.
pub open spec fn score_table_html(report: TableReportView) -> Seq<char> {
    html_head() + table_text(report) + html_tail()
}

/// What opens the page.
pub fn get_html_head() -> (r: &'static str)
    ensures
        r@ == html_head(),
{
    "<!DOCTYPE html><html lang='en'><head><meta charset='UTF-8'><meta http-equiv='X-UA-Compatible' content='IE=edge'>
    <meta name='viewport' content='width=device-width, initial-scale=1.0'><title>Document</title></head><body><style>
    table{width: 100%;text-align: center;}tr:nth-child(2n) {color: rgb(128, 128, 128)}th {color: #a6acf3;}.biggest {
    color: green;}.smallest {color: red}td,th {border: 1px solid rgb(190, 190, 190);}</style><table>"
}

/// What closes the page.
pub fn get_html_tail() -> (r: &'static str)
    ensures
        r@ == html_tail(),
{
    "</table></body></html>"
}

/// What a player's cell for a round holds.
pub fn extract_field_value(sheet: &TableSheet, index: usize) -> (r: Vec<char>)
    ensures
        r@ == field_text(sheet@, index as int),
{
    if index < sheet.score.len() {
        if let Some(val) = sheet.score[index] {
            return decimal_chars(val as i128);
        }
    }
    Vec::new()
}

/// The cells of a round, one for each player.
pub fn generate_line(sheets: &Vec<TableSheet>, index: usize) -> (r: Vec<char>)
    ensures
        r@ == line_cells(table_sheets_of(sheets@), index as int, sheets.len() as nat),
{
    let ghost views = table_sheets_of(sheets@);
    let mut line: Vec<char> = Vec::new();
    let mut i: usize = 0;
    while i < sheets.len()
        invariant
            i <= sheets.len(),
            views == table_sheets_of(sheets@),
            line@ == line_cells(views, index as int, i as nat),
        decreases sheets.len() - i,
    {
        assert(views[i as int] == sheets@[i as int]@);
        let ghost before = line@;
        append_str(&mut line, "<td>");
        let field = extract_field_value(&sheets[i], index);
        append_chars(&mut line, &field);
        append_str(&mut line, "</td>");
        assert(line@ =~= line_cells(views, index as int, (i + 1) as nat));
        i += 1;
    }
    line
}

/// The cells of the sums, one for each player.
pub fn generate_total_score_row(players: usize, final_scores: &Vec<i128>) -> (r: Vec<char>)
    ensures
        r@ == total_cells(totals_of(final_scores@), players as nat),
{
    let mut line: Vec<char> = Vec::new();
    let mut i: usize = 0;
    while i < players
        invariant
            i <= players,
            line@ == total_cells(totals_of(final_scores@), i as nat),
        decreases players - i,
    {
        let final_score: i128 = if i < final_scores.len() {
            final_scores[i]
        } else {
            0
        };
        append_str(&mut line, "<th>");
        let sum = decimal_chars(final_score);
        append_chars(&mut line, &sum);
        append_str(&mut line, "</th>");
        assert(line@ =~= total_cells(totals_of(final_scores@), (i + 1) as nat));
        i += 1;
    }
    line
}

/// The table of a report.
pub fn generate_table(report: &TableReport) -> (r: Vec<char>)
    ensures
        r@ == table_text(report@),
{
    let ghost views = table_sheets_of(report.sheets@);
    let mut table: Vec<char> = Vec::new();
    // generate table header
    append_str(&mut table, "<tr>");
    let ghost start = table@;
    let mut i: usize = 0;
    while i < report.sheets.len()
        invariant
            i <= report.sheets.len(),
            views == table_sheets_of(report.sheets@),
            table@ == start + header_cells(views, i as nat),
        decreases report.sheets.len() - i,
    {
        assert(views[i as int] == report.sheets@[i as int]@);
        append_str(&mut table, "<th>");
        append_str(&mut table, report.sheets[i].player.name.as_str());
        append_str(&mut table, "</th>");
        assert(table@ =~= start + header_cells(views, (i + 1) as nat));
        i += 1;
    }
    append_str(&mut table, "</tr>");
    // generate table rows
    let ghost start = table@;
    let mut index: usize = 0;
    while index < report.round
        invariant
            index <= report.round,
            views == table_sheets_of(report.sheets@),
            table@ == start + table_rows(views, index as nat),
        decreases report.round - index,
    {
        append_str(&mut table, "<tr>");
        let line = generate_line(&report.sheets, index);
        append_chars(&mut table, &line);
        append_str(&mut table, "</tr>");
        assert(views.len() == report.sheets.len());
        assert(table@ =~= start + table_rows(views, (index + 1) as nat));
        index += 1;
    }
    append_str(&mut table, "<tr>");
    let totals = generate_total_score_row(report.sheets.len(), &report.final_scores);
    append_chars(&mut table, &totals);
    append_str(&mut table, "</tr>");
    assert(views.len() == report.sheets.len());
    assert(table@ =~= table_text(report@));
    table
}

/// The page of a report.
pub fn build_score_table_html(report: &TableReport) -> (r: String)
    ensures
        r@ == score_table_html(report@),
{
    let mut out: Vec<char> = Vec::new();
    append_str(&mut out, get_html_head());
    let table = generate_table(report);
    append_chars(&mut out, &table);
    append_str(&mut out, get_html_tail());
    string_of(&out)
}

} // verus!
