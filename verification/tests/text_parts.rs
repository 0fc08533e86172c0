use tarok_scorer::controllers::end_game::append_file_to_path;
use tarok_scorer::controllers::register::{
    check_names, extract_names, join_lines, register_reply, reserved_name_message,
    user_created_message,
};
use tarok_scorer::models::user::{
    NameCheckedState, NewUser, PlayerDirectory, User, UserError,
};
use tarok_scorer::naming::{CheckName, GameAggregator};
use tarok_scorer::games::table::game::Table;
use tarok_scorer::games::tarok::game::Tarok;
use tarok_scorer::text::{
    append_chars, append_str, char_is_whitespace, chars_of, copy_chars, decimal_chars,
    parse_chars_i32, reads_as, same_chars, split_fields, split_words, string_of,
};

fn chars(s: &str) -> Vec<char> {
    s.chars().collect()
}

fn texts(v: Vec<Vec<char>>) -> Vec<String> {
    v.into_iter().map(|w| w.into_iter().collect()).collect()
}

#[test]
fn whitespace_is_what_unicode_says() {
    for n in 0..=0x10FFFFu32 {
        if let Some(c) = char::from_u32(n) {
            assert_eq!(char_is_whitespace(c), c.is_whitespace(), "{:x}", n);
        }
    }
}

#[test]
fn strings_to_chars_and_back() {
    assert_eq!(chars_of(""), Vec::<char>::new());
    assert_eq!(chars_of("žaba 1"), vec!['ž', 'a', 'b', 'a', ' ', '1']);
    assert_eq!(string_of(&vec![]), "");
    assert_eq!(string_of(&vec!['Ž', 'i', 'g', 'a']), "Žiga");
    assert_eq!(copy_chars(&chars("abcdef"), 2, 4), chars("cd"));
    assert_eq!(copy_chars(&chars("abcdef"), 3, 3), chars(""));
    assert!(same_chars(&chars("ab"), &chars("ab")));
    assert!(!same_chars(&chars("ab"), &chars("abc")));
    assert!(!same_chars(&chars("ab"), &chars("aB")));
    assert!(reads_as(&chars("KL"), "KL"));
    assert!(!reads_as(&chars("KL"), "K"));
    assert!(reads_as(&chars(""), ""));
}

#[test]
fn appending() {
    let mut out = chars("ab");
    append_chars(&mut out, &chars("cd"));
    append_str(&mut out, "");
    append_str(&mut out, "é!");
    assert_eq!(out, chars("abcdé!"));
}

#[test]
fn words_of_a_text() {
    assert_eq!(texts(split_words(&chars(""))), Vec::<String>::new());
    assert_eq!(texts(split_words(&chars("   \t\n"))), Vec::<String>::new());
    assert_eq!(texts(split_words(&chars("one"))), vec!["one"]);
    assert_eq!(texts(split_words(&chars(" one  two\tthree\n"))), vec!["one", "two", "three"]);
    assert_eq!(texts(split_words(&chars("a\u{a0}b\u{3000}c,d"))), vec!["a", "b", "c,d"]);
    for text in ["x y", "  lead and trail  ", "a,b c,,d", "\u{2003}wide\u{2003}"] {
        let expected: Vec<String> = text.split_whitespace().map(|w| w.to_string()).collect();
        assert_eq!(texts(split_words(&chars(text))), expected);
    }
}

#[test]
fn fields_of_a_text() {
    assert_eq!(texts(split_fields(&chars(""), ',')), vec![""]);
    assert_eq!(texts(split_fields(&chars("a"), ',')), vec!["a"]);
    assert_eq!(texts(split_fields(&chars("a,b"), ',')), vec!["a", "b"]);
    assert_eq!(texts(split_fields(&chars(",a,,b,"), ',')), vec!["", "a", "", "b", ""]);
    assert_eq!(texts(split_fields(&chars(","), ',')), vec!["", ""]);
    for text in ["x y", "  two  spaces ", "", " ", "a b c"] {
        let expected: Vec<String> = text.split(' ').map(|w| w.to_string()).collect();
        assert_eq!(texts(split_fields(&chars(text), ' ')), expected);
    }
}

#[test]
fn integers_read() {
    assert_eq!(parse_chars_i32(&chars("0")), Some(0));
    assert_eq!(parse_chars_i32(&chars("-0")), Some(0));
    assert_eq!(parse_chars_i32(&chars("+0")), Some(0));
    assert_eq!(parse_chars_i32(&chars("42")), Some(42));
    assert_eq!(parse_chars_i32(&chars("-42")), Some(-42));
    assert_eq!(parse_chars_i32(&chars("+42")), Some(42));
    assert_eq!(parse_chars_i32(&chars("00042")), Some(42));
    assert_eq!(parse_chars_i32(&chars("2147483647")), Some(i32::MAX));
    assert_eq!(parse_chars_i32(&chars("2147483648")), None);
    assert_eq!(parse_chars_i32(&chars("-2147483648")), Some(i32::MIN));
    assert_eq!(parse_chars_i32(&chars("-2147483649")), None);
    assert_eq!(parse_chars_i32(&chars("000000000000000000002147483647")), Some(i32::MAX));
    assert_eq!(parse_chars_i32(&chars("99999999999999999999999999999999")), None);
    assert_eq!(parse_chars_i32(&chars("-99999999999999999999999999999999")), None);
    assert_eq!(parse_chars_i32(&chars("")), None);
    assert_eq!(parse_chars_i32(&chars("-")), None);
    assert_eq!(parse_chars_i32(&chars("+")), None);
    assert_eq!(parse_chars_i32(&chars("+-1")), None);
    assert_eq!(parse_chars_i32(&chars("--1")), None);
    assert_eq!(parse_chars_i32(&chars("1-")), None);
    assert_eq!(parse_chars_i32(&chars(" 1")), None);
    assert_eq!(parse_chars_i32(&chars("1 ")), None);
    assert_eq!(parse_chars_i32(&chars("1a")), None);
    assert_eq!(parse_chars_i32(&chars("0x10")), None);
    assert_eq!(parse_chars_i32(&chars("١٢")), None);
    for text in ["7", "-7", "+7", "", "+", "007", "2147483648", "-2147483648", "1_000", "1e3"] {
        assert_eq!(parse_chars_i32(&chars(text)), text.parse::<i32>().ok(), "{}", text);
    }
}

#[test]
fn integers_written() {
    assert_eq!(decimal_chars(0), chars("0"));
    assert_eq!(decimal_chars(7), chars("7"));
    assert_eq!(decimal_chars(-7), chars("-7"));
    assert_eq!(decimal_chars(10), chars("10"));
    assert_eq!(decimal_chars(-120), chars("-120"));
    assert_eq!(decimal_chars(i32::MIN as i128), chars("-2147483648"));
    assert_eq!(decimal_chars(i128::MAX), chars(&i128::MAX.to_string()));
    assert_eq!(decimal_chars(i128::MIN), chars(&i128::MIN.to_string()));
}

#[test]
fn paths_of_reports() {
    assert_eq!(
        append_file_to_path("2024-01-02 03:04:05.678 UTC_tarok.html"),
        "./res/games/2024_01_02_03_04_05.678_UTC_tarok.html"
    );
    assert_eq!(append_file_to_path(""), "./res/games/");
    assert_eq!(append_file_to_path("a/b_c"), "./res/games/a/b_c");
}

#[test]
fn new_user_is_unchecked_and_gets_an_identifier() {
    let one = NewUser::from("ANA".to_string(), "chat".to_string());
    let two = NewUser::from("ANA".to_string(), "chat".to_string());
    assert_eq!(one.name, "ANA");
    assert_eq!(one.chat_id, "chat");
    assert_eq!(one.checked, NameCheckedState::Unchecked);
    assert!(!one.is_valid());
    assert_eq!(one.id.len(), 36);
    assert_ne!(one.id, two.id);
    let given = NewUser::with_id("id".to_string(), "ANA".to_string(), "chat".to_string());
    assert_eq!(given.id, "id");
    assert_eq!(given.checked, NameCheckedState::Unchecked);
}

#[test]
fn only_a_valid_new_user_becomes_a_user() {
    let mut new_user = NewUser::with_id("id".to_string(), "ANA".to_string(), "chat".to_string());
    new_user.validate();
    assert!(new_user.is_valid());
    assert_eq!(new_user.checked, NameCheckedState::Valid);
    assert_eq!(
        User::from(new_user),
        Ok(User { id: "id".to_string(), name: "ANA".to_string(), chat_id: "chat".to_string() })
    );
    let mut new_user = NewUser::with_id("id".to_string(), "ANA".to_string(), "chat".to_string());
    new_user.invalidate();
    assert!(!new_user.is_valid());
    assert_eq!(new_user.name, "ANA");
    assert_eq!(User::from(new_user), Err(UserError::InvalidName));
    let new_user = NewUser::with_id("id".to_string(), "ANA".to_string(), "chat".to_string());
    assert_eq!(User::from(new_user), Err(UserError::NameNotChecked));
    assert_eq!(UserError::InvalidName.message(), "Invalid user name");
    assert_eq!(UserError::NameNotChecked.message(), "User name not yet checked");
}

#[test]
fn user_clone_is_equal() {
    let user = User { id: "i".to_string(), name: "N".to_string(), chat_id: "c".to_string() };
    assert_eq!(user.clone(), user);
}

#[test]
fn directory_resolves_the_first_of_a_name() {
    let mut directory = PlayerDirectory::new();
    assert_eq!(directory.get_user_by_name(&chars("A")), None);
    let first = User { id: "1".to_string(), name: "A".to_string(), chat_id: "c".to_string() };
    let second = User { id: "2".to_string(), name: "A".to_string(), chat_id: "c".to_string() };
    let other = User { id: "3".to_string(), name: "B".to_string(), chat_id: "c".to_string() };
    directory.insert_user(other.clone());
    directory.insert_user(first.clone());
    directory.insert_user(second);
    assert_eq!(directory.users.len(), 3);
    assert_eq!(directory.get_user_by_name(&chars("A")), Some(first));
    assert_eq!(directory.get_user_by_name(&chars("B")), Some(other));
    assert_eq!(directory.get_user_by_name(&chars("a")), None);
    assert_eq!(directory.get_user_by_name(&chars("")), None);
}

#[test]
fn reserved_names() {
    let tarok = Tarok::new();
    let terms = tarok.get_reserved_terms();
    assert_eq!(
        terms,
        vec![
            "I3", "I2", "I1", "S3", "S2", "S1", "SB", "KL", "B", "P", "BVI3", "BVI2", "BVI1",
            "BVS3", "BVS2", "BVS1", "BVSB", "ZP", "ZK", "V", "T", "K", "NZP", "NZK", "NV", "NT",
            "NK", "M", "R", "T", "Ig", "Sl"
        ]
    );
    for term in terms {
        assert!(!tarok.is_valid_name(term));
    }
    assert!(tarok.is_valid_name("ANA"));
    assert!(tarok.is_valid_name("i3"));
    assert!(tarok.is_valid_name("IG"));
    assert!(tarok.is_valid_name(""));
    let table = Table::new();
    assert!(table.get_reserved_terms().is_empty());
    assert!(table.is_valid_name("I3"));
}

#[test]
fn names_are_held_against_every_game() {
    let games = GameAggregator::new();
    assert_eq!(games.tarok.round(), 0);
    assert_eq!(games.table.round(), 0);
    let mut user = NewUser::with_id("id".to_string(), "ANA".to_string(), "chat".to_string());
    games.validate_user(&mut user);
    assert_eq!(user.checked, NameCheckedState::Valid);
    assert_eq!(user.name, "ANA");
    assert_eq!(user.id, "id");
    let mut user = NewUser::with_id("id".to_string(), "BVSB".to_string(), "chat".to_string());
    games.validate_user(&mut user);
    assert_eq!(user.checked, NameCheckedState::Invalid);
    assert_eq!(user.name, "BVSB");
    let mut user = NewUser::with_id("id".to_string(), "KL".to_string(), "chat".to_string());
    user.validate();
    games.validate_user(&mut user);
    assert_eq!(user.checked, NameCheckedState::Invalid);
}

#[test]
fn names_of_a_registering_command() {
    assert_eq!(texts(extract_names("/register ana  Bor\tŽiga")), vec!["ana", "Bor", "Žiga"]);
    assert_eq!(texts(extract_names("/register")), Vec::<String>::new());
    assert_eq!(texts(extract_names("")), Vec::<String>::new());
}

#[test]
fn registering_takes_names_in_upper_case() {
    let registration = check_names("/register ana i3 Žiga kl ig", "chat-7");
    let names: Vec<&str> = registration.users.iter().map(|u| u.name.as_str()).collect();
    assert_eq!(names, vec!["ANA", "ŽIGA", "IG"]);
    assert_eq!(registration.invalid_names, vec!["I3", "KL"]);
    for user in &registration.users {
        assert_eq!(user.chat_id, "chat-7");
        assert_eq!(user.id.len(), 36);
    }
    assert_ne!(registration.users[0].id, registration.users[1].id);
    let nobody = check_names("/register", "chat-7");
    assert!(nobody.users.is_empty());
    assert!(nobody.invalid_names.is_empty());
}

#[test]
fn messages_of_registering() {
    assert_eq!(
        reserved_name_message("KL"),
        "Username KL is on a reserved list. Choose another name."
    );
    assert_eq!(user_created_message("ANA"), "User ANA created!");
    let none: Vec<String> = vec![];
    assert_eq!(join_lines(&none), chars(""));
    assert_eq!(join_lines(&vec!["a".to_string()]), chars("a"));
    assert_eq!(join_lines(&vec!["a".to_string(), "".to_string(), "b".to_string()]), chars("a\n\nb"));
    assert_eq!(
        register_reply(
            &vec!["User ANA created!".to_string(), "User BOR created!".to_string()],
            &vec![reserved_name_message("KL")]
        ),
        "User ANA created!\nUser BOR created!\nUsername KL is on a reserved list. Choose another name."
    );
    assert_eq!(register_reply(&none, &none), "\n");
}
