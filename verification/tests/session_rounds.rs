use tarok_scorer::games::session::{Game, GameError};
use tarok_scorer::games::table::game::{Table, TableError};
use tarok_scorer::games::tarok::enums::TarokError;
use tarok_scorer::games::tarok::game::Tarok;
use tarok_scorer::models::user::{PlayerDirectory, User};

fn user(id: &str, name: &str) -> User {
    User { id: id.to_string(), name: name.to_string(), chat_id: "chat".to_string() }
}

fn directory() -> PlayerDirectory {
    let mut directory = PlayerDirectory::new();
    directory.insert_user(user("id-a", "ANA"));
    directory.insert_user(user("id-b", "BOR"));
    directory
}

fn names(v: Vec<Vec<char>>) -> Vec<String> {
    v.into_iter().map(|w| w.into_iter().collect()).collect()
}

#[test]
fn session_of_tarok() {
    let mut game = Game::Tarok(Tarok::new());
    assert!(game.is_well_formed());
    assert_eq!(game.start_game(), "Started game of Tarok!");
    assert_eq!(names(game.names_to_resolve("/score i2 ana,m Bor žan,5")), vec!["ANA", "BOR", "ŽAN"]);
    assert_eq!(names(game.names_to_resolve("/score i2")), Vec::<String>::new());
    let dir = directory();
    assert_eq!(game.handle_round("/score i2 ana,m bor", &dir), Ok("\nANA -> 0\nBOR -> 0".to_string()));
    assert_eq!(
        game.handle_round("/score i2 ana eva", &dir),
        Err(GameError::Tarok(TarokError::UnknownPlayer))
    );
    assert!(game.is_well_formed());
    assert!(game.generate_file_name().ends_with(" UTC_tarok.html"));
    let page = game.get_state();
    assert!(page.contains("<tr><th>ANA</th><th>BOR</th></tr><tr><th> O</th><th> O</th></tr>"));
    assert!(page.contains("<tr><th>-100</th><th>-100</th></tr>"));
    assert_eq!(game.get_state(), page);
    assert_eq!(game.end_game(), page);
}

#[test]
fn session_of_the_plain_table() {
    let mut game = Game::Table(Table::new());
    assert!(game.is_well_formed());
    assert_eq!(game.start_game(), "Started a generic game score table!");
    assert_eq!(names(game.names_to_resolve("/score ana 5 Bor 7 žan")), vec!["ANA", "BOR", "ŽAN"]);
    assert_eq!(names(game.names_to_resolve("/score")), Vec::<String>::new());
    let dir = directory();
    assert_eq!(game.handle_round("/score ana 5 bor 7", &dir), Ok("Round 1 submitted!".to_string()));
    assert_eq!(
        game.handle_round("/score ana x", &dir),
        Err(GameError::Table(TableError::UnrecognizedScore))
    );
    assert!(game.generate_file_name().ends_with(" UTC_table.html"));
    let page = game.get_state();
    assert!(page.contains("<tr><th>ANA</th><th>BOR</th></tr><tr><td>5</td><td>7</td></tr><tr><th>5</th><th>7</th></tr>"));
    assert_eq!(game.end_game(), page);
}

#[test]
fn session_error_messages() {
    assert_eq!(GameError::Tarok(TarokError::NoGameSpecified).message(), "No game specified.");
    assert_eq!(
        GameError::Table(TableError::CountMismatch).message(),
        "Number of users and scores do not match"
    );
}

#[test]
fn names_that_a_round_asks_for() {
    assert_eq!(
        names(tarok_scorer::games::tarok::tokens::extract_round_names("/score kl ana,5 ana bor,M")),
        vec!["ANA", "ANA", "BOR"]
    );
    assert_eq!(
        names(tarok_scorer::games::tarok::tokens::extract_round_names("/score nothing ,M")),
        vec![""]
    );
    assert_eq!(
        names(tarok_scorer::games::table::game::extract_round_names("/score ana 5 bor")),
        vec!["ANA", "BOR"]
    );
    assert_eq!(
        tarok_scorer::games::table::game::table_file_name_at("now"),
        "now_table.html"
    );
}

#[test]
fn well_formed_sessions_stay_well_formed() {
    let mut game = Tarok::new();
    let dir = directory();
    assert!(game.is_well_formed());
    for line in ["/score b ana", "/score s1,-3 bor,m ana", "/score what ana", "/score kl bor"] {
        let _ = game.handle_round(line, &dir);
        assert!(game.is_well_formed());
    }
    assert_eq!(game.round(), 3);
}
