use tarok_scorer::games::tarok::enums::{
    Radlc, TarokError, TarokGame, TarokGameAttribute, TarokGameInput, TarokPlayerAttibute,
    TarokPlayerInput,
};
use tarok_scorer::games::tarok::report::{
    copy_rows, count_unused_radlci, sum_score_by_players, sum_scores,
};
use tarok_scorer::games::tarok::rules::{
    add_playing_attribute_to_first_player, add_supporting_attribute_to_players,
    attribute_worth, calculate_base_game_points, calculate_personal_points, find_tarok_game,
    game_grants_radlc, game_worth, handle_game, handle_radlc, is_team_game, play,
    player_attribute_worth, players_validity_check, score_game_and_player, score_player_only,
    RoundOutcome,
};
use tarok_scorer::games::tarok::sheets::{
    add_radlc, all_known, any_available, consume_player_radlc, consume_radlc,
    fill_gaps_until_round, find_sheet, handle_new_users, increment_round,
    player_has_avalible_radlc, save_game_attributes, save_player_attributes,
    save_round_to_sheets, save_score, PlayerSheet,
};
use tarok_scorer::games::tarok::tokens::{
    extract_game_attributes, extract_player_attributes, extract_round_game_fragment,
    extract_round_player_fragment, extract_round_users, find_round_player,
    game_attribute_from_name, game_from_name, parse_attribute_option_fragment,
    parse_diff_option_fragment, parse_game_option_fragment, parse_inputs_from_fragment,
    parse_player_attribute_fragment, parse_player_inputs, parse_user_from_fragment,
    parse_users_from_fragment, player_attribute_from_name, read_round, resolve_game_tokens,
    RoundPlayer,
};
use tarok_scorer::models::user::{PlayerDirectory, User};

fn chars(s: &str) -> Vec<char> {
    s.chars().collect()
}

fn user(id: &str, name: &str) -> User {
    User { id: id.to_string(), name: name.to_string(), chat_id: "chat".to_string() }
}

fn directory() -> PlayerDirectory {
    let mut directory = PlayerDirectory::new();
    directory.insert_user(user("id-a", "A"));
    directory.insert_user(user("id-b", "B"));
    directory.insert_user(user("id-c", "C"));
    directory
}

fn round_player(id: &str, name: &str, inputs: Vec<TarokPlayerInput>) -> RoundPlayer {
    RoundPlayer { player: user(id, name), inputs }
}

fn blank(id: &str, name: &str, round: usize) -> PlayerSheet {
    PlayerSheet {
        player: user(id, name),
        score: vec![None; round],
        player_attributes: vec![None; round],
        radlci: vec![None; round],
    }
}

const IG: TarokPlayerInput = TarokPlayerInput::PlayerAttribute(TarokPlayerAttibute::Ig);
const SL: TarokPlayerInput = TarokPlayerInput::PlayerAttribute(TarokPlayerAttibute::Sl);
const M: TarokPlayerInput = TarokPlayerInput::PlayerAttribute(TarokPlayerAttibute::M);

#[test]
fn game_worths() {
    let worths = [
        (TarokGame::I3, 10),
        (TarokGame::I2, 20),
        (TarokGame::I1, 30),
        (TarokGame::S3, 40),
        (TarokGame::S2, 50),
        (TarokGame::S1, 60),
        (TarokGame::SB, 80),
        (TarokGame::KL, 0),
        (TarokGame::B, 70),
        (TarokGame::P, 60),
        (TarokGame::BVI3, 90),
        (TarokGame::BVI2, 100),
        (TarokGame::BVI1, 110),
        (TarokGame::BVS3, 120),
        (TarokGame::BVS2, 130),
        (TarokGame::BVS1, 140),
        (TarokGame::BVSB, 150),
    ];
    for (game, worth) in worths {
        assert_eq!(game_worth(game), worth);
        assert_eq!(attribute_worth(&TarokGameInput::TarokGame(game)), worth);
    }
}

#[test]
fn game_attribute_worths() {
    let worths = [
        (TarokGameAttribute::ZP, 10),
        (TarokGameAttribute::ZK, 10),
        (TarokGameAttribute::V, 150),
        (TarokGameAttribute::T, 15),
        (TarokGameAttribute::K, 15),
        (TarokGameAttribute::NZP, 20),
        (TarokGameAttribute::NZK, 20),
        (TarokGameAttribute::NV, 250),
        (TarokGameAttribute::NT, 30),
        (TarokGameAttribute::NK, 30),
    ];
    for (attribute, worth) in worths {
        assert_eq!(attribute_worth(&TarokGameInput::TarokGameAttribute(attribute)), worth);
    }
    assert_eq!(attribute_worth(&TarokGameInput::TarokGameDiff(-7)), -7);
}

#[test]
fn player_attribute_worths() {
    let worths = [
        (TarokPlayerAttibute::M, -20),
        (TarokPlayerAttibute::R, 0),
        (TarokPlayerAttibute::T, 0),
        (TarokPlayerAttibute::Ig, 0),
        (TarokPlayerAttibute::Sl, -20),
    ];
    for (attribute, worth) in worths {
        assert_eq!(player_attribute_worth(&TarokPlayerInput::PlayerAttribute(attribute)), worth);
    }
    assert_eq!(player_attribute_worth(&TarokPlayerInput::PlayerDiff(33)), 33);
}

#[test]
fn team_games_and_granting_games() {
    let team = [
        TarokGame::I3,
        TarokGame::I2,
        TarokGame::I1,
        TarokGame::BVI3,
        TarokGame::BVI2,
        TarokGame::BVI1,
    ];
    let all = [
        TarokGame::I3,
        TarokGame::I2,
        TarokGame::I1,
        TarokGame::S3,
        TarokGame::S2,
        TarokGame::S1,
        TarokGame::SB,
        TarokGame::KL,
        TarokGame::B,
        TarokGame::P,
        TarokGame::BVI3,
        TarokGame::BVI2,
        TarokGame::BVI1,
        TarokGame::BVS3,
        TarokGame::BVS2,
        TarokGame::BVS1,
        TarokGame::BVSB,
    ];
    for game in all {
        assert_eq!(is_team_game(game), team.contains(&game));
        assert_eq!(
            game_grants_radlc(game),
            !matches!(game, TarokGame::S1 | TarokGame::S2 | TarokGame::S3)
        );
    }
}

#[test]
fn names_of_games() {
    let names = [
        ("I3", TarokGame::I3),
        ("I2", TarokGame::I2),
        ("I1", TarokGame::I1),
        ("S3", TarokGame::S3),
        ("S2", TarokGame::S2),
        ("S1", TarokGame::S1),
        ("SB", TarokGame::SB),
        ("KL", TarokGame::KL),
        ("B", TarokGame::B),
        ("P", TarokGame::P),
        ("BVI3", TarokGame::BVI3),
        ("BVI2", TarokGame::BVI2),
        ("BVI1", TarokGame::BVI1),
        ("BVS3", TarokGame::BVS3),
        ("BVS2", TarokGame::BVS2),
        ("BVS1", TarokGame::BVS1),
        ("BVSB", TarokGame::BVSB),
    ];
    for (name, game) in names {
        assert_eq!(game_from_name(&chars(name)), Some(game));
        assert_eq!(parse_game_option_fragment(&chars(name)), Some(game));
        assert_eq!(parse_game_option_fragment(&chars(&name.to_lowercase())), Some(game));
        assert_eq!(game_from_name(&chars(&name.to_lowercase())), None);
    }
    assert_eq!(game_from_name(&chars("")), None);
    assert_eq!(game_from_name(&chars("I4")), None);
    assert_eq!(game_from_name(&chars("I3 ")), None);
    assert_eq!(parse_game_option_fragment(&chars("ZP")), None);
}

#[test]
fn names_of_game_attributes() {
    let names = [
        ("ZP", TarokGameAttribute::ZP),
        ("ZK", TarokGameAttribute::ZK),
        ("V", TarokGameAttribute::V),
        ("T", TarokGameAttribute::T),
        ("K", TarokGameAttribute::K),
        ("NZP", TarokGameAttribute::NZP),
        ("NZK", TarokGameAttribute::NZK),
        ("NV", TarokGameAttribute::NV),
        ("NT", TarokGameAttribute::NT),
        ("NK", TarokGameAttribute::NK),
    ];
    for (name, attribute) in names {
        assert_eq!(game_attribute_from_name(&chars(name)), Some(attribute));
        assert_eq!(parse_attribute_option_fragment(&chars(&name.to_lowercase())), Some(attribute));
    }
    assert_eq!(game_attribute_from_name(&chars("M")), None);
    assert_eq!(parse_attribute_option_fragment(&chars("zz")), None);
}

#[test]
fn names_of_player_attributes() {
    assert_eq!(player_attribute_from_name(&chars("M")), Some(TarokPlayerAttibute::M));
    assert_eq!(player_attribute_from_name(&chars("R")), Some(TarokPlayerAttibute::R));
    assert_eq!(player_attribute_from_name(&chars("T")), Some(TarokPlayerAttibute::T));
    assert_eq!(player_attribute_from_name(&chars("Ig")), None);
    assert_eq!(player_attribute_from_name(&chars("IG")), None);
    assert_eq!(player_attribute_from_name(&chars("SL")), None);
    assert_eq!(parse_player_attribute_fragment(&chars("m")), Some(TarokPlayerAttibute::M));
    assert_eq!(parse_player_attribute_fragment(&chars("r")), Some(TarokPlayerAttibute::R));
    assert_eq!(parse_player_attribute_fragment(&chars("t")), Some(TarokPlayerAttibute::T));
    assert_eq!(parse_player_attribute_fragment(&chars("sl")), None);
}

#[test]
fn numbers_of_points() {
    assert_eq!(parse_diff_option_fragment(&chars("15")), Some(15));
    assert_eq!(parse_diff_option_fragment(&chars("-15")), Some(-15));
    assert_eq!(parse_diff_option_fragment(&chars("+15")), Some(15));
    assert_eq!(parse_diff_option_fragment(&chars("1.5")), None);
    assert_eq!(parse_diff_option_fragment(&chars("")), None);
}

#[test]
fn fragments_of_a_round() {
    assert_eq!(extract_round_game_fragment("/score I3,ZP A B"), Some(chars("I3,ZP")));
    assert_eq!(extract_round_game_fragment("/score"), None);
    assert_eq!(extract_round_game_fragment("/score I3"), Some(chars("I3")));
    assert_eq!(
        extract_round_player_fragment("/score I3,ZP A,M  B"),
        Some(vec![chars("A,M"), chars("B")])
    );
    assert_eq!(extract_round_player_fragment("/score I3"), None);
    assert_eq!(extract_round_player_fragment(""), None);
}

#[test]
fn tokens_of_the_game_part() {
    assert_eq!(
        resolve_game_tokens(&chars("zp,I3,12,V")),
        Ok(vec![
            TarokGameInput::TarokGameAttribute(TarokGameAttribute::ZP),
            TarokGameInput::TarokGame(TarokGame::I3),
            TarokGameInput::TarokGameDiff(12),
            TarokGameInput::TarokGameAttribute(TarokGameAttribute::V),
        ])
    );
    assert_eq!(resolve_game_tokens(&chars("ZP,12")), Err(TarokError::NoGameSpecified));
    assert_eq!(resolve_game_tokens(&chars("")), Err(TarokError::NoGameSpecified));
    assert_eq!(resolve_game_tokens(&chars("WHAT")), Err(TarokError::NoGameSpecified));
    assert_eq!(resolve_game_tokens(&chars("WHAT,I3")), Err(TarokError::UnrecognizedToken));
    assert_eq!(resolve_game_tokens(&chars("I3,I3")), Err(TarokError::UnrecognizedToken));
    assert_eq!(resolve_game_tokens(&chars("1,I3,2")), Err(TarokError::UnrecognizedToken));
    assert_eq!(
        extract_game_attributes("/score B A"),
        Ok(vec![TarokGameInput::TarokGame(TarokGame::B)])
    );
    assert_eq!(extract_game_attributes("/score B"), Err(TarokError::MalformedRound));
    assert_eq!(extract_game_attributes("/score ZK A"), Err(TarokError::NoGameSpecified));
}

#[test]
fn players_of_a_round() {
    let dir = directory();
    assert_eq!(parse_user_from_fragment(&chars("a,M,5"), &dir), Ok(user("id-a", "A")));
    assert_eq!(parse_user_from_fragment(&chars("D"), &dir), Err(TarokError::UnknownPlayer));
    assert_eq!(parse_user_from_fragment(&chars(""), &dir), Err(TarokError::UnknownPlayer));
    assert_eq!(
        parse_users_from_fragment(&vec![chars("b"), chars("A,M"), chars("B")], &dir),
        Ok(vec![user("id-b", "B"), user("id-a", "A"), user("id-b", "B")])
    );
    assert_eq!(
        parse_users_from_fragment(&vec![chars("b"), chars("X")], &dir),
        Err(TarokError::UnknownPlayer)
    );
    assert_eq!(parse_users_from_fragment(&vec![], &dir), Ok(vec![]));
    assert_eq!(
        extract_round_users("/score I3 c a", &dir),
        Ok(vec![user("id-c", "C"), user("id-a", "A")])
    );
    assert_eq!(extract_round_users("/score I3", &dir), Err(TarokError::MalformedRound));
    assert_eq!(extract_round_users("/score I3 a d", &dir), Err(TarokError::UnknownPlayer));
}

#[test]
fn tokens_of_a_player() {
    assert_eq!(
        parse_player_inputs(&chars("A,m,-4,T,r,+9")),
        Ok(vec![
            M,
            TarokPlayerInput::PlayerDiff(-4),
            TarokPlayerInput::PlayerAttribute(TarokPlayerAttibute::T),
            TarokPlayerInput::PlayerAttribute(TarokPlayerAttibute::R),
            TarokPlayerInput::PlayerDiff(9),
        ])
    );
    assert_eq!(parse_player_inputs(&chars("A")), Ok(vec![]));
    assert_eq!(parse_player_inputs(&chars("M")), Ok(vec![]));
    assert_eq!(parse_player_inputs(&chars("A,")), Err(TarokError::UnrecognizedToken));
    assert_eq!(parse_player_inputs(&chars("A,M,ZP")), Err(TarokError::UnrecognizedToken));
    assert_eq!(
        parse_inputs_from_fragment(&vec![chars("A,M"), chars("B")]),
        Ok(vec![vec![M], vec![]])
    );
    assert_eq!(
        parse_inputs_from_fragment(&vec![chars("A,M"), chars("B,Q")]),
        Err(TarokError::UnrecognizedToken)
    );
}

#[test]
fn players_with_what_is_said_of_them() {
    let dir = directory();
    assert_eq!(
        extract_player_attributes("/score I3 b,M a,1 b,2", &dir),
        Ok(vec![
            round_player("id-b", "B", vec![TarokPlayerInput::PlayerDiff(2)]),
            round_player("id-a", "A", vec![TarokPlayerInput::PlayerDiff(1)]),
        ])
    );
    assert_eq!(extract_player_attributes("/score I3", &dir), Err(TarokError::MalformedRound));
    assert_eq!(extract_player_attributes("/score I3 q", &dir), Err(TarokError::UnknownPlayer));
    assert_eq!(
        extract_player_attributes("/score I3 a,q", &dir),
        Err(TarokError::UnrecognizedToken)
    );
    assert_eq!(
        extract_player_attributes("/score NOGAME a,M", &dir),
        Ok(vec![round_player("id-a", "A", vec![M])])
    );
}

#[test]
fn whole_round_read() {
    let dir = directory();
    assert_eq!(
        read_round("/score s1,nk c,M a", &dir),
        Ok((
            vec![
                TarokGameInput::TarokGame(TarokGame::S1),
                TarokGameInput::TarokGameAttribute(TarokGameAttribute::NK),
            ],
            vec![round_player("id-c", "C", vec![M]), round_player("id-a", "A", vec![])],
        ))
    );
    assert_eq!(read_round("/score s1", &dir), Err(TarokError::MalformedRound));
    assert_eq!(read_round("/score zz q,zz", &dir), Err(TarokError::NoGameSpecified));
    assert_eq!(read_round("/score s1,zz q,zz", &dir), Err(TarokError::UnrecognizedToken));
    assert_eq!(read_round("/score s1 q,zz", &dir), Err(TarokError::UnknownPlayer));
    assert_eq!(read_round("/score s1 a,zz", &dir), Err(TarokError::UnrecognizedToken));
}

#[test]
fn finding_a_player_of_the_round() {
    let players = vec![round_player("id-a", "A", vec![]), round_player("id-b", "B", vec![])];
    assert_eq!(find_round_player(&players, &"id-b".to_string()), Some(1));
    assert_eq!(find_round_player(&players, &"id-a".to_string()), Some(0));
    assert_eq!(find_round_player(&players, &"id-c".to_string()), None);
}

#[test]
fn game_of_a_round() {
    assert_eq!(find_tarok_game(&vec![]), None);
    assert_eq!(
        find_tarok_game(&vec![
            TarokGameInput::TarokGameDiff(3),
            TarokGameInput::TarokGame(TarokGame::P),
            TarokGameInput::TarokGame(TarokGame::B),
        ]),
        Some(TarokGame::P)
    );
}

#[test]
fn base_points() {
    assert_eq!(calculate_base_game_points(&vec![]), 0);
    assert_eq!(calculate_base_game_points(&vec![TarokGameInput::TarokGame(TarokGame::I3)]), 10);
    assert_eq!(
        calculate_base_game_points(&vec![
            TarokGameInput::TarokGame(TarokGame::S1),
            TarokGameInput::TarokGameAttribute(TarokGameAttribute::NV),
            TarokGameInput::TarokGameDiff(15),
        ]),
        325
    );
    assert_eq!(
        calculate_base_game_points(&vec![
            TarokGameInput::TarokGameDiff(-15),
            TarokGameInput::TarokGame(TarokGame::S1),
        ]),
        -75
    );
    assert_eq!(
        calculate_base_game_points(&vec![
            TarokGameInput::TarokGame(TarokGame::I3),
            TarokGameInput::TarokGameDiff(0),
        ]),
        10
    );
    assert_eq!(
        calculate_base_game_points(&vec![TarokGameInput::TarokGameDiff(i32::MIN); 3]),
        3 * (i32::MIN as i128)
    );
}

#[test]
fn personal_points() {
    assert_eq!(calculate_personal_points(&vec![]), 0);
    assert_eq!(
        calculate_personal_points(&vec![M, SL, IG, TarokPlayerInput::PlayerDiff(7)]),
        -33
    );
    assert_eq!(
        calculate_personal_points(&vec![TarokPlayerInput::PlayerDiff(i32::MAX); 4]),
        4 * (i32::MAX as i128)
    );
}

#[test]
fn a_round_needs_a_player() {
    assert_eq!(players_validity_check(&vec![]), Err(TarokError::NoPlayers));
    assert_eq!(players_validity_check(&vec![round_player("id-a", "A", vec![])]), Ok(()));
}

#[test]
fn roles() {
    let mut players = vec![
        round_player("id-a", "A", vec![M]),
        round_player("id-b", "B", vec![]),
        round_player("id-c", "C", vec![TarokPlayerInput::PlayerDiff(1)]),
    ];
    add_playing_attribute_to_first_player(&mut players);
    assert_eq!(players[0].inputs, vec![M, IG]);
    assert_eq!(players[1].inputs, vec![]);
    add_supporting_attribute_to_players(&mut players);
    assert_eq!(players[0].inputs, vec![M, IG]);
    assert_eq!(players[1].inputs, vec![SL]);
    assert_eq!(players[2].inputs, vec![TarokPlayerInput::PlayerDiff(1), SL]);
    let mut nobody: Vec<RoundPlayer> = vec![];
    add_supporting_attribute_to_players(&mut nobody);
    assert!(nobody.is_empty());
}

#[test]
fn doubling() {
    let mut points: i128 = 35;
    assert!(handle_radlc(true, &mut points));
    assert_eq!(points, 70);
    assert!(!handle_radlc(false, &mut points));
    assert_eq!(points, 70);
    let mut points: i128 = -35;
    assert!(handle_radlc(true, &mut points));
    assert_eq!(points, -70);
}

#[test]
fn points_of_each_player() {
    let players = vec![
        round_player("id-a", "A", vec![M, IG]),
        round_player("id-b", "B", vec![TarokPlayerInput::PlayerDiff(4)]),
    ];
    assert_eq!(score_game_and_player(&players, 100), Ok(vec![80, 104]));
    assert_eq!(score_player_only(&players), Ok(vec![-20, 4]));
    assert_eq!(
        score_game_and_player(&players, i32::MAX as i128 - 3),
        Err(TarokError::PointsOutOfRange)
    );
    assert_eq!(score_game_and_player(&players, i32::MAX as i128 - 4), Ok(vec![2147483623, 2147483647]));
    assert_eq!(score_game_and_player(&players, i128::MAX), Err(TarokError::PointsOutOfRange));
    assert_eq!(score_game_and_player(&players, i128::MIN), Err(TarokError::PointsOutOfRange));
    assert_eq!(score_game_and_player(&vec![], i128::MAX), Ok(vec![]));
}

#[test]
fn rules_applied_to_a_round() {
    let players = || vec![round_player("id-a", "A", vec![]), round_player("id-b", "B", vec![M])];
    let game = vec![
        TarokGameInput::TarokGame(TarokGame::BVI3),
        TarokGameInput::TarokGameAttribute(TarokGameAttribute::K),
    ];
    assert_eq!(
        handle_game(players(), true, &game),
        Ok(RoundOutcome {
            game: TarokGame::BVI3,
            players: vec![
                round_player("id-a", "A", vec![IG]),
                round_player("id-b", "B", vec![M, SL]),
            ],
            score_change: vec![210, 170],
            radlc_used: true,
        })
    );
    assert_eq!(
        play(TarokGame::BVI3, players(), false, &game),
        Ok(RoundOutcome {
            game: TarokGame::BVI3,
            players: vec![
                round_player("id-a", "A", vec![IG]),
                round_player("id-b", "B", vec![M, SL]),
            ],
            score_change: vec![105, 65],
            radlc_used: false,
        })
    );
    let kl = vec![TarokGameInput::TarokGame(TarokGame::KL), TarokGameInput::TarokGameDiff(50)];
    assert_eq!(
        handle_game(players(), true, &kl),
        Ok(RoundOutcome {
            game: TarokGame::KL,
            players: vec![
                round_player("id-a", "A", vec![IG]),
                round_player("id-b", "B", vec![M]),
            ],
            score_change: vec![0, -20],
            radlc_used: false,
        })
    );
    assert_eq!(handle_game(players(), true, &vec![]), Err(TarokError::NoGameSpecified));
    assert_eq!(handle_game(vec![], true, &vec![]), Err(TarokError::NoGameSpecified));
    assert_eq!(handle_game(vec![], true, &game), Err(TarokError::NoPlayers));
}

#[test]
fn filling_gaps() {
    let mut sheet: Vec<Option<i32>> = vec![Some(1)];
    fill_gaps_until_round(&mut sheet, 3);
    assert_eq!(sheet, vec![Some(1), None, None]);
    fill_gaps_until_round(&mut sheet, 3);
    assert_eq!(sheet, vec![Some(1), None, None]);
    fill_gaps_until_round(&mut sheet, 1);
    assert_eq!(sheet, vec![Some(1), None, None]);
    let mut empty: Vec<Option<Radlc>> = vec![];
    fill_gaps_until_round(&mut empty, 0);
    assert!(empty.is_empty());
}

#[test]
fn new_players_get_blank_sheets() {
    let mut sheets = vec![blank("id-a", "A", 2)];
    sheets[0].score[1] = Some(5);
    let players = vec![
        round_player("id-b", "B", vec![]),
        round_player("id-a", "A", vec![]),
        round_player("id-b", "B", vec![M]),
    ];
    handle_new_users(&players, &mut sheets, 2);
    assert_eq!(sheets.len(), 2);
    assert_eq!(sheets[0].score, vec![None, Some(5)]);
    assert_eq!(sheets[1], blank("id-b", "B", 2));
    assert_eq!(find_sheet(&sheets, &"id-b".to_string()), Some(1));
    assert_eq!(find_sheet(&sheets, &"id-c".to_string()), None);
    assert!(all_known(&players, &sheets));
    assert!(!all_known(&vec![round_player("id-c", "C", vec![])], &sheets));
    assert!(all_known(&vec![], &sheets));
}

#[test]
fn doubling_tokens() {
    let mut radlci = vec![None, Some(Radlc::Used), Some(Radlc::Avalible), Some(Radlc::Avalible)];
    assert!(any_available(&radlci));
    assert_eq!(count_unused_radlci(&radlci), 2);
    assert!(consume_radlc(&mut radlci));
    assert_eq!(radlci, vec![None, Some(Radlc::Used), Some(Radlc::Used), Some(Radlc::Avalible)]);
    assert!(consume_radlc(&mut radlci));
    assert!(!any_available(&radlci));
    assert!(!consume_radlc(&mut radlci));
    assert_eq!(radlci, vec![None, Some(Radlc::Used), Some(Radlc::Used), Some(Radlc::Used)]);
    assert_eq!(count_unused_radlci(&radlci), 0);
}

#[test]
fn doubling_tokens_of_a_player() {
    let mut sheets = vec![blank("id-a", "A", 1), blank("id-b", "B", 1)];
    sheets[1].radlci[0] = Some(Radlc::Avalible);
    assert!(!player_has_avalible_radlc(&"id-a".to_string(), &sheets));
    assert!(player_has_avalible_radlc(&"id-b".to_string(), &sheets));
    assert!(!player_has_avalible_radlc(&"id-c".to_string(), &sheets));
    assert!(!consume_player_radlc(&"id-a".to_string(), &mut sheets));
    assert!(!consume_player_radlc(&"id-c".to_string(), &mut sheets));
    assert!(consume_player_radlc(&"id-b".to_string(), &mut sheets));
    assert_eq!(sheets[1].radlci, vec![Some(Radlc::Used)]);
    assert_eq!(sheets[0], blank("id-a", "A", 1));
    add_radlc(&mut sheets, 3, true);
    assert_eq!(sheets[0].radlci, vec![None, None, None, Some(Radlc::Avalible)]);
    assert_eq!(sheets[1].radlci, vec![Some(Radlc::Used), None, None, Some(Radlc::Avalible)]);
    add_radlc(&mut sheets, 4, false);
    assert_eq!(sheets[0].radlci.len(), 5);
    assert_eq!(sheets[0].radlci[4], None);
}

#[test]
fn saving_the_parts_of_a_round() {
    let mut sheets = vec![blank("id-a", "A", 0), blank("id-b", "B", 0), blank("id-c", "C", 0)];
    let players = vec![round_player("id-c", "C", vec![IG]), round_player("id-a", "A", vec![M])];
    save_score(&players, &vec![7, -7], 2, &mut sheets);
    assert_eq!(sheets[0].score, vec![None, None, Some(-7)]);
    assert_eq!(sheets[1].score, vec![None, None, None]);
    assert_eq!(sheets[2].score, vec![None, None, Some(7)]);
    save_player_attributes(&players, 1, &mut sheets);
    assert_eq!(sheets[0].player_attributes, vec![None, Some(vec![M])]);
    assert_eq!(sheets[1].player_attributes, vec![None, None]);
    assert_eq!(sheets[2].player_attributes, vec![None, Some(vec![IG])]);
    let mut games = vec![];
    save_game_attributes(vec![TarokGameInput::TarokGame(TarokGame::P)], &mut games);
    save_game_attributes(vec![], &mut games);
    assert_eq!(games, vec![vec![TarokGameInput::TarokGame(TarokGame::P)], vec![]]);
    let mut round = 4;
    increment_round(&mut round);
    assert_eq!(round, 5);
}

#[test]
fn saving_a_round_is_all_or_nothing() {
    let mut sheets = vec![blank("id-a", "A", 1)];
    sheets[0].radlci[0] = Some(Radlc::Avalible);
    let mut games = vec![vec![TarokGameInput::TarokGame(TarokGame::KL)]];
    let before_sheets = vec![PlayerSheet {
        player: user("id-a", "A"),
        score: vec![None],
        player_attributes: vec![None],
        radlci: vec![Some(Radlc::Avalible)],
    }];
    let stranger = RoundOutcome {
        game: TarokGame::P,
        players: vec![round_player("id-a", "A", vec![IG]), round_player("id-b", "B", vec![])],
        score_change: vec![120, 120],
        radlc_used: true,
    };
    assert_eq!(
        save_round_to_sheets(
            &stranger,
            vec![TarokGameInput::TarokGame(TarokGame::P)],
            &mut sheets,
            &mut games,
            1
        ),
        Err(TarokError::LedgerInvariantViolation)
    );
    assert_eq!(sheets, before_sheets);
    assert_eq!(games.len(), 1);
    let uneven = RoundOutcome {
        game: TarokGame::P,
        players: vec![round_player("id-a", "A", vec![IG])],
        score_change: vec![],
        radlc_used: false,
    };
    assert_eq!(
        save_round_to_sheets(&uneven, vec![], &mut sheets, &mut games, 1),
        Err(TarokError::LedgerInvariantViolation)
    );
    assert_eq!(sheets, before_sheets);
    let known = RoundOutcome {
        game: TarokGame::P,
        players: vec![round_player("id-a", "A", vec![IG])],
        score_change: vec![120],
        radlc_used: true,
    };
    assert_eq!(
        save_round_to_sheets(
            &known,
            vec![TarokGameInput::TarokGame(TarokGame::P)],
            &mut sheets,
            &mut games,
            1
        ),
        Ok(())
    );
    assert_eq!(sheets[0].score, vec![None, Some(120)]);
    assert_eq!(sheets[0].player_attributes, vec![None, Some(vec![IG])]);
    assert_eq!(sheets[0].radlci, vec![Some(Radlc::Used), Some(Radlc::Avalible)]);
    assert_eq!(games.len(), 2);
}

#[test]
fn sums_of_a_sheet() {
    assert_eq!(sum_scores(&vec![]), (0, None, None));
    assert_eq!(sum_scores(&vec![None, None]), (0, None, None));
    assert_eq!(
        sum_scores(&vec![Some(5), None, Some(-20), Some(30), None]),
        (15, Some(-20), Some(30))
    );
    assert_eq!(
        sum_scores(&vec![Some(i32::MAX), Some(i32::MAX)]),
        (2 * (i32::MAX as i128), Some(i32::MAX), Some(i32::MAX))
    );
    assert_eq!(copy_rows(&vec![Some(1), None]), vec![Some(1), None]);
}

#[test]
fn standings_charge_unused_tokens() {
    let mut sheets = vec![blank("id-a", "A", 3), blank("id-b", "B", 3)];
    sheets[0].score = vec![Some(30), None, Some(-10)];
    sheets[0].radlci = vec![Some(Radlc::Avalible), Some(Radlc::Used), Some(Radlc::Avalible)];
    assert_eq!(sum_score_by_players(&sheets), vec![(-180, -10, 30), (0, 0, 0)]);
}
