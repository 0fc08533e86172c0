use tarok_scorer::games::tarok::enums::{Radlc, TarokPlayerAttibute, TarokPlayerInput};
use tarok_scorer::games::tarok::game::{generate_response, Tarok};
use tarok_scorer::games::tarok::html_helper::{
    build_score_table_html, get_aditional_markers, get_html_head, get_html_tail,
    radlci_to_string, tarok_player_input_to_string,
};
use tarok_scorer::games::tarok::report::{
    copy_attribute_rows, copy_game_rows, copy_sheets, TarokReport,
};
use tarok_scorer::games::tarok::enums::{TarokGame, TarokGameInput};
use tarok_scorer::games::tarok::rules::RoundOutcome;
use tarok_scorer::games::tarok::sheets::{blank_rows, copy_inputs};
use tarok_scorer::games::tarok::tokens::RoundPlayer;
use tarok_scorer::models::user::{PlayerDirectory, User};

fn user(id: &str, name: &str) -> User {
    User { id: id.to_string(), name: name.to_string(), chat_id: "chat".to_string() }
}

fn directory() -> PlayerDirectory {
    let mut directory = PlayerDirectory::new();
    directory.insert_user(user("id-a", "A"));
    directory.insert_user(user("id-b", "B"));
    directory
}

fn text(v: Vec<char>) -> String {
    v.into_iter().collect()
}

const M_ICON: &str = "<i title='Mond snipe' class='fas fa-crosshairs'></i>";
const IG_ICON: &str = "<i title='Renons' class='fas fa-dice'></i>";
const SL_ICON: &str = "<i class='fal fa-truck-container'></i>";

#[test]
fn marks_of_tokens() {
    let mark = |a| tarok_player_input_to_string(&TarokPlayerInput::PlayerAttribute(a));
    assert_eq!(mark(TarokPlayerAttibute::M), M_ICON);
    assert_eq!(mark(TarokPlayerAttibute::R), "<i title='Renons' class='fas fa-hand-middle-finger'></i>");
    assert_eq!(mark(TarokPlayerAttibute::T), "<i title='Renons' class='fas fa-users-slash'></i>");
    assert_eq!(mark(TarokPlayerAttibute::Ig), IG_ICON);
    assert_eq!(mark(TarokPlayerAttibute::Sl), SL_ICON);
    assert_eq!(tarok_player_input_to_string(&TarokPlayerInput::PlayerDiff(4)), "");
}

#[test]
fn marks_of_a_round() {
    let rows = vec![
        None,
        Some(vec![
            TarokPlayerInput::PlayerAttribute(TarokPlayerAttibute::M),
            TarokPlayerInput::PlayerDiff(4),
            TarokPlayerInput::PlayerAttribute(TarokPlayerAttibute::Ig),
        ]),
        Some(vec![]),
    ];
    assert_eq!(text(get_aditional_markers(&rows, 0)), "");
    assert_eq!(text(get_aditional_markers(&rows, 1)), format!("{}{}", M_ICON, IG_ICON));
    assert_eq!(text(get_aditional_markers(&rows, 2)), "");
    assert_eq!(text(get_aditional_markers(&rows, 3)), "");
}

#[test]
fn doubling_tokens_as_text() {
    assert_eq!(text(radlci_to_string(&vec![])), "");
    assert_eq!(
        text(radlci_to_string(&vec![
            Some(Radlc::Used),
            None,
            Some(Radlc::Avalible),
            Some(Radlc::Avalible)
        ])),
        " Ø O O"
    );
}

#[test]
fn page_of_a_session() {
    let mut game = Tarok::new();
    let dir = directory();
    game.handle_round("/score I1 A B,M", &dir).unwrap();
    game.handle_round("/score S3,-10 B", &dir).unwrap();
    let report = game.get_state();
    assert_eq!(report.sum_by_player, vec![(-70, 30, 30), (-110, -100, -10)]);
    let table = format!(
        "<tr><th>A</th><th>B</th></tr>\
         <tr><th> O</th><th> Ø</th></tr>\
         <tr><td class='biggest'>30 {ig}</td><td class='biggest'>-10 {m}{sl}</td></tr>\
         <tr><td></td><td class='smallest'>-100 {ig}</td></tr>\
         <tr><th>-70</th><th>-110</th></tr>",
        ig = IG_ICON,
        m = M_ICON,
        sl = SL_ICON
    );
    assert_eq!(
        build_score_table_html(&report),
        format!("{}{}{}", get_html_head(), table, get_html_tail())
    );
}

#[test]
fn page_of_an_empty_session() {
    let report = Tarok::new().end_game();
    assert_eq!(
        build_score_table_html(&report),
        format!("{}<tr></tr><tr></tr><tr></tr>{}", get_html_head(), get_html_tail())
    );
}

#[test]
fn page_marks_points_that_are_neither_least_nor_greatest() {
    let report = TarokReport {
        sheets: copy_sheets(&vec![tarok_scorer::games::tarok::sheets::PlayerSheet {
            player: user("id-a", "A"),
            score: vec![Some(5), Some(1), Some(9)],
            player_attributes: vec![None, None, None],
            radlci: vec![None, None, None],
        }]),
        round: 3,
        sum_by_player: vec![(15, 1, 9)],
        game_attributes: vec![],
    };
    let page = build_score_table_html(&report);
    assert!(page.contains("<tr><td >5 </td></tr><tr><td class='smallest'>1 </td></tr><tr><td class='biggest'>9 </td></tr>"));
    assert!(page.contains("<tr><th>15</th></tr>"));
}

#[test]
fn page_head_and_tail() {
    assert!(get_html_head().starts_with("<!DOCTYPE html><html lang='en'><head><link rel='stylesheet'"));
    assert!(get_html_head().ends_with("green;}.smallest {color: red}</style><table>"));
    assert!(get_html_tail().starts_with("</table>\n    <i title='Renons' class='fa-solid fa-truck-tow'></i>"));
    assert!(get_html_tail().ends_with("</body>\n    </html>"));
}

#[test]
fn answer_to_a_round() {
    let outcome = RoundOutcome {
        game: TarokGame::P,
        players: vec![
            RoundPlayer { player: user("id-a", "A"), inputs: vec![] },
            RoundPlayer { player: user("id-b", "Bor"), inputs: vec![] },
            RoundPlayer { player: user("id-c", "C"), inputs: vec![] },
        ],
        score_change: vec![60, -2147483648],
        radlc_used: false,
    };
    assert_eq!(generate_response(&outcome), "\nA -> 60\nBor -> -2147483648");
    let nobody = RoundOutcome {
        game: TarokGame::P,
        players: vec![],
        score_change: vec![1],
        radlc_used: false,
    };
    assert_eq!(generate_response(&nobody), "");
}

#[test]
fn copies_are_equal() {
    let inputs = vec![
        TarokPlayerInput::PlayerDiff(1),
        TarokPlayerInput::PlayerAttribute(TarokPlayerAttibute::R),
    ];
    assert_eq!(copy_inputs(&inputs), inputs);
    let rows = vec![None, Some(inputs.clone()), Some(vec![])];
    assert_eq!(copy_attribute_rows(&rows), rows);
    let games = vec![vec![TarokGameInput::TarokGame(TarokGame::KL)], vec![]];
    assert_eq!(copy_game_rows(&games), games);
    let blank: Vec<Option<i32>> = blank_rows(3);
    assert_eq!(blank, vec![None, None, None]);
}
