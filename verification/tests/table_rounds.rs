use tarok_scorer::games::table::game::{
    extract_round_scores, extract_round_users, find_table_sheet, sum_score_by_players, Table,
    TableError, TableReport, TableSheet,
};
use tarok_scorer::games::table::html_helper::{
    build_score_table_html, extract_field_value, generate_line, generate_table,
    generate_total_score_row, get_html_head, get_html_tail,
};
use tarok_scorer::models::user::{PlayerDirectory, User};

fn user(id: &str, name: &str) -> User {
    User { id: id.to_string(), name: name.to_string(), chat_id: "chat".to_string() }
}

fn directory() -> PlayerDirectory {
    let mut directory = PlayerDirectory::new();
    directory.insert_user(user("id-a", "ANA"));
    directory.insert_user(user("id-b", "BOR"));
    directory
}

fn text(v: Vec<char>) -> String {
    v.into_iter().collect()
}

#[test]
fn table_starts_empty() {
    let mut table = Table::new();
    assert_eq!(table.round(), 0);
    assert!(table.sheets().is_empty());
    assert_eq!(table.start_game(), "Started a generic game score table!");
}

#[test]
fn table_round_is_entered() {
    let mut table = Table::new();
    let dir = directory();
    assert_eq!(table.handle_round("/score ana 10 bor -5", &dir), Ok("Round 1 submitted!".to_string()));
    assert_eq!(table.handle_round("/score bor 7", &dir), Ok("Round 2 submitted!".to_string()));
    assert_eq!(table.handle_round("/score Ana +1", &dir), Ok("Round 3 submitted!".to_string()));
    assert_eq!(table.round(), 3);
    assert_eq!(table.sheets()[0].player, user("id-a", "ANA"));
    assert_eq!(table.sheets()[0].score, vec![Some(10), None, Some(1)]);
    assert_eq!(table.sheets()[1].score, vec![Some(-5), Some(7)]);
}

#[test]
fn table_late_joiner_has_gaps() {
    let mut table = Table::new();
    let dir = directory();
    table.handle_round("/score ana 1", &dir).unwrap();
    table.handle_round("/score ana 2", &dir).unwrap();
    table.handle_round("/score bor 3", &dir).unwrap();
    assert_eq!(table.sheets()[1].score, vec![None, None, Some(3)]);
}

#[test]
fn table_round_without_players_counts() {
    let mut table = Table::new();
    assert_eq!(table.handle_round("/score", &directory()), Ok("Round 1 submitted!".to_string()));
    assert_eq!(table.round(), 1);
    assert!(table.sheets().is_empty());
}

#[test]
fn table_rejections_leave_no_trace() {
    let mut table = Table::new();
    let dir = directory();
    table.handle_round("/score ana 1", &dir).unwrap();
    assert_eq!(table.handle_round("/score eva 1", &dir), Err(TableError::UnknownPlayer));
    assert_eq!(table.handle_round("/score ana x", &dir), Err(TableError::UnrecognizedScore));
    assert_eq!(table.handle_round("/score ana", &dir), Err(TableError::CountMismatch));
    assert_eq!(table.handle_round("/score ana 1 bor", &dir), Err(TableError::CountMismatch));
    assert_eq!(table.handle_round("/score ana  1", &dir), Err(TableError::UnknownPlayer));
    assert_eq!(table.handle_round("/score ana 1 ", &dir), Err(TableError::UnknownPlayer));
    assert_eq!(table.handle_round("/score eva x", &dir), Err(TableError::UnknownPlayer));
    assert_eq!(table.round(), 1);
    assert_eq!(table.sheets().len(), 1);
    assert_eq!(table.sheets()[0].score, vec![Some(1)]);
}

#[test]
fn table_error_messages() {
    assert_eq!(TableError::UnknownPlayer.message(), "Error fetching user from DB");
    assert_eq!(TableError::UnrecognizedScore.message(), "Error parsing score");
    assert_eq!(TableError::CountMismatch.message(), "Number of users and scores do not match");
    assert_eq!(TableError::RoundLimitReached.message(), "No further round can be counted");
}

#[test]
fn table_fields_of_a_round() {
    let dir = directory();
    assert_eq!(
        extract_round_users("/score bor 1 ana 2", &dir),
        Ok(vec![user("id-b", "BOR"), user("id-a", "ANA")])
    );
    assert_eq!(extract_round_users("/score", &dir), Ok(vec![]));
    assert_eq!(extract_round_users("", &dir), Ok(vec![]));
    assert_eq!(extract_round_users("/score bor 1 eva", &dir), Err(TableError::UnknownPlayer));
    assert_eq!(extract_round_scores("/score bor 1 ana -2"), Ok(vec![1, -2]));
    assert_eq!(extract_round_scores("/score bor"), Ok(vec![]));
    assert_eq!(extract_round_scores(""), Ok(vec![]));
    assert_eq!(extract_round_scores("/score bor 1 ana two"), Err(TableError::UnrecognizedScore));
    assert_eq!(extract_round_scores("/score bor 1.5"), Err(TableError::UnrecognizedScore));
}

#[test]
fn table_player_named_twice_gets_two_entries() {
    let mut table = Table::new();
    table.handle_round("/score ana 1 ana 2", &directory()).unwrap();
    assert_eq!(table.sheets().len(), 1);
    assert_eq!(table.sheets()[0].score, vec![Some(1), Some(2)]);
    assert_eq!(find_table_sheet(table.sheets(), &"id-a".to_string()), Some(0));
    assert_eq!(find_table_sheet(table.sheets(), &"id-b".to_string()), None);
}

#[test]
fn table_state_fills_and_sums() {
    let mut table = Table::new();
    let dir = directory();
    table.handle_round("/score ana 10 bor -5", &dir).unwrap();
    table.handle_round("/score ana 7", &dir).unwrap();
    let state = table.get_state();
    assert_eq!(state.round, 2);
    assert_eq!(state.final_scores, vec![17, -5]);
    assert_eq!(state.sheets[1].score, vec![Some(-5), None]);
    assert_eq!(table.sheets()[1].score, vec![Some(-5), None]);
    assert_eq!(table.get_state(), state);
    assert_eq!(table.round(), 2);
    assert_eq!(sum_score_by_players(table.sheets()), vec![17, -5]);
    assert_eq!(table.end_game(), state);
}

fn report() -> TableReport {
    TableReport {
        sheets: vec![
            TableSheet { player: user("id-a", "ANA"), score: vec![Some(10), None] },
            TableSheet { player: user("id-b", "BOR"), score: vec![Some(-5), Some(0)] },
        ],
        round: 2,
        final_scores: vec![10, -5],
    }
}

#[test]
fn table_page_parts() {
    let report = report();
    assert_eq!(text(extract_field_value(&report.sheets[0], 0)), "10");
    assert_eq!(text(extract_field_value(&report.sheets[0], 1)), "");
    assert_eq!(text(extract_field_value(&report.sheets[0], 2)), "");
    assert_eq!(text(generate_line(&report.sheets, 0)), "<td>10</td><td>-5</td>");
    assert_eq!(text(generate_line(&report.sheets, 1)), "<td></td><td>0</td>");
    assert_eq!(text(generate_line(&vec![], 0)), "");
    assert_eq!(text(generate_total_score_row(2, &report.final_scores)), "<th>10</th><th>-5</th>");
    assert_eq!(text(generate_total_score_row(2, &vec![4])), "<th>4</th><th>0</th>");
    assert_eq!(
        text(generate_table(&report)),
        "<tr><th>ANA</th><th>BOR</th></tr><tr><td>10</td><td>-5</td></tr><tr><td></td><td>0</td></tr><tr><th>10</th><th>-5</th></tr>"
    );
    assert_eq!(get_html_tail(), "</table></body></html>");
    assert!(get_html_head().starts_with("<!DOCTYPE html><html lang='en'><head><meta charset='UTF-8'>"));
    assert!(get_html_head().ends_with("td,th {border: 1px solid rgb(190, 190, 190);}</style><table>"));
}

#[test]
fn table_page() {
    let report = report();
    assert_eq!(
        build_score_table_html(&report),
        format!("{}{}{}", get_html_head(), text(generate_table(&report)), get_html_tail())
    );
    let empty = TableReport { sheets: vec![], round: 0, final_scores: vec![] };
    assert_eq!(
        build_score_table_html(&empty),
        format!("{}<tr></tr><tr></tr>{}", get_html_head(), get_html_tail())
    );
}
