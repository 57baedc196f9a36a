use rank_rooms::lobby::Reaction;
use rank_rooms::message::{ClientMessage, MessageType};
use rank_rooms::ranking::{compare_keys, rank_by_keys};
use rank_rooms::rooms::{random_room_code, room_path, show_room_page, Lobby};
use rank_rooms::state::{keeps_connection, GameError};
use rank_rooms::text::{chars_of, decimal_string, join_with_commas, non_empty_comma_fields, replace_all};

#[test]
fn decimal_strings() {
    assert_eq!(decimal_string(0), "0");
    assert_eq!(decimal_string(7), "7");
    assert_eq!(decimal_string(42), "42");
    assert_eq!(decimal_string(1000), "1000");
    assert_eq!(decimal_string(u64::MAX), "18446744073709551615");
}

#[test]
fn commas_go_between_parts() {
    let none: Vec<String> = Vec::new();
    assert_eq!(join_with_commas(&none), "");
    assert_eq!(join_with_commas(&vec!["Pizza".to_string()]), "Pizza");
    assert_eq!(
        join_with_commas(&vec!["Pizza".to_string(), "4".to_string(), "2.5".to_string()]),
        "Pizza,4,2.5"
    );
    assert_eq!(join_with_commas(&vec!["".to_string(), "".to_string()]), ",");
}

#[test]
fn keys_are_compared_position_by_position() {
    assert_eq!(compare_keys(&vec![1, 2, 3], &vec![1, 2, 4]), -1);
    assert_eq!(compare_keys(&vec![2, 0, 0], &vec![1, 9, 9]), 1);
    assert_eq!(compare_keys(&vec![1, 2, 3], &vec![1, 2, 3]), 0);
    assert_eq!(compare_keys(&vec![], &vec![]), 0);
    assert_eq!(compare_keys(&vec![-5], &vec![5]), -1);
}

#[test]
fn ranking_puts_smaller_keys_first() {
    let keys = vec![vec![3, 1], vec![1, 5], vec![2, 0], vec![1, 4]];
    assert_eq!(rank_by_keys(&keys), vec![3, 1, 2, 0]);
}

#[test]
fn ranking_keeps_the_given_order_of_equal_keys() {
    let keys = vec![vec![2, 2], vec![1, 1], vec![2, 2], vec![1, 1], vec![2, 2]];
    assert_eq!(rank_by_keys(&keys), vec![1, 3, 0, 2, 4]);
}

#[test]
fn ranking_of_nothing_is_empty() {
    let keys: Vec<Vec<i64>> = Vec::new();
    assert!(rank_by_keys(&keys).is_empty());
    let one = vec![vec![i64::MIN, i64::MAX]];
    assert_eq!(rank_by_keys(&one), vec![0]);
}

#[test]
fn ranking_is_a_stable_sort() {
    let keys: Vec<Vec<i64>> = (0..40i64).map(|i| vec![(i * 7) % 5, (i * 3) % 4]).collect();
    let ranked = rank_by_keys(&keys);
    let mut expected: Vec<usize> = (0..keys.len()).collect();
    expected.sort_by(|a, b| keys[*a].cmp(&keys[*b]));
    assert_eq!(ranked, expected);
}

#[test]
fn room_codes_are_four_capitals() {
    for _ in 0..50 {
        let code = random_room_code();
        assert_eq!(code.chars().count(), 4);
        assert!(code.chars().all(|c| c.is_ascii_uppercase()));
    }
}

#[test]
fn drawn_rooms_are_new_and_joinable() {
    let mut lobby = Lobby::new();
    let mut made = Vec::new();
    while made.len() < 5 {
        if let Some(code) = lobby.draw_room() {
            assert!(!made.contains(&code));
            made.push(code);
        }
    }
    for (i, code) in made.iter().enumerate() {
        assert_eq!(lobby.find_room(code), Some(i));
        assert!(lobby.contains_room(code));
        assert_eq!(lobby.join_destination(code), format!("/room/{code}"));
        let room = lobby.room(code).unwrap();
        assert!(room.players.is_empty());
        assert!(room.options.is_empty());
        assert_eq!(room.latest_id, 0);
    }
}

#[test]
fn unknown_rooms_send_players_home() {
    let lobby = Lobby::new();
    assert_eq!(lobby.find_room("ABCD"), None);
    assert!(!lobby.contains_room("ABCD"));
    assert_eq!(lobby.join_destination("ABCD"), "/");
    assert_eq!(lobby.join_destination(""), "/");
}

#[test]
fn room_paths() {
    assert_eq!(room_path("QWER"), "/room/QWER");
    assert_eq!(room_path(""), "/room/");
}

#[test]
fn connection_stays_open_on_messages_and_odd_frames() {
    let ok: Result<ClientMessage, GameError> =
        Ok(ClientMessage { message_type: MessageType::Debug, content: String::new() });
    assert!(keeps_connection(&ok));
    let frame: Result<ClientMessage, GameError> =
        Err(GameError::WrongFrameType("binary".to_string()));
    assert!(keeps_connection(&frame));
}

#[test]
fn connection_closes_on_errors() {
    let gone: Result<ClientMessage, GameError> = Err(GameError::UserDisconnected);
    assert!(!keeps_connection(&gone));
    let wrong: Result<ClientMessage, GameError> =
        Err(GameError::WrongMessageType("ToggleReady".to_string()));
    assert!(!keeps_connection(&wrong));
    let parse_error = serde_json::from_str::<serde_json::Value>("{").unwrap_err();
    let parse: Result<ClientMessage, GameError> = Err(GameError::from(parse_error));
    assert!(matches!(parse, Err(GameError::ParseFailure(_))));
    assert!(!keeps_connection(&parse));
}

#[test]
fn letters_count_from_a() {
    assert_eq!(rank_rooms::rooms::letter(0), 'A');
    assert_eq!(rank_rooms::rooms::letter(1), 'B');
    assert_eq!(rank_rooms::rooms::letter(25), 'Z');
}

#[test]
fn rooms_open_under_new_codes_only() {
    let mut lobby = Lobby::new();
    assert!(lobby.open_room("ABCD".to_string()));
    assert!(lobby.open_room("WXYZ".to_string()));
    assert!(!lobby.open_room("ABCD".to_string()));
    assert_eq!(lobby.find_room("ABCD"), Some(0));
    assert_eq!(lobby.find_room("WXYZ"), Some(1));
    assert!(lobby.room("QQQQ").is_none());
}

#[test]
fn opening_a_room_keeps_the_others() {
    let mut lobby = Lobby::new();
    lobby.open_room("AAAA".to_string());
    lobby.open_room("BBBB".to_string());
    lobby.open_room("CCCC".to_string());
    for code in ["AAAA", "BBBB", "CCCC"] {
        assert!(lobby.contains_room(code));
        assert_eq!(lobby.join_destination(code), format!("/room/{code}"));
    }
}

#[test]
fn room_pages_carry_their_code() {
    assert_eq!(show_room_page("<h1>[ROOM_CODE]</h1>", "QWER"), "<h1>QWER</h1>");
    assert_eq!(
        show_room_page("[ROOM_CODE] and [ROOM_CODE]", "AB"),
        "AB and AB"
    );
    assert_eq!(show_room_page("no placeholder", "AB"), "no placeholder");
    assert_eq!(show_room_page("[ROOM_CODE", "AB"), "[ROOM_CODE");
    assert_eq!(show_room_page("", "AB"), "");
    assert_eq!(show_room_page("é[ROOM_CODE]ü", "ZZ"), "éZZü");
}

#[test]
fn replacing_matches_left_to_right() {
    assert_eq!(replace_all("aaa", "aa", "b"), "ba");
    assert_eq!(replace_all("abcabc", "bc", ""), "aa");
    assert_eq!(replace_all("x", "x", "xx"), "xx");
    assert_eq!(replace_all("hello", "l", "L"), "heLLo");
}

#[test]
fn characters_come_out_in_order() {
    assert_eq!(chars_of("añb"), vec!['a', 'ñ', 'b']);
    assert!(chars_of("").is_empty());
}

#[test]
fn comma_fields_leave_out_empty_ones() {
    use_fields("b,a,c", &["b", "a", "c"]);
    use_fields("", &[]);
    use_fields(",,x,,y,", &["x", "y"]);
    use_fields("one", &["one"]);
    use_fields(" a , b", &[" a ", " b"]);
}

fn use_fields(text: &str, expected: &[&str]) {
    let expected: Vec<String> = expected.iter().map(|s| s.to_string()).collect();
    assert_eq!(non_empty_comma_fields(text), expected);
}

#[test]
fn draws_spell_room_codes() {
    use_draws(&[0, 1, 2, 3], "ABCD");
    use_draws(&[25, 25, 0, 12], "ZZAM");
}

fn use_draws(draws: &[usize], expected: &str) {
    assert_eq!(rank_rooms::rooms::room_code_from_draws(&draws.to_vec()), expected);
}

fn msg(message_type: MessageType, content: &str) -> ClientMessage {
    ClientMessage { message_type, content: content.to_string() }
}

#[test]
fn messages_for_unknown_rooms_change_nothing() {
    let mut lobby = Lobby::new();
    lobby.open_room("ABCD".to_string());
    assert!(matches!(
        lobby.evaluate_in_room("ZZZZ", msg(MessageType::NewOption, "x"), "1"),
        Reaction::Nothing
    ));
    assert!(matches!(
        lobby.evaluate_in_room("ZZZZ", msg(MessageType::DeleteOption, "x"), "1"),
        Reaction::Nothing
    ));
    assert!(matches!(
        lobby.evaluate_in_room("ZZZZ", msg(MessageType::OptionsOrder, "x"), "1"),
        Reaction::Nothing
    ));
    match lobby.evaluate_in_room("ZZZZ", msg(MessageType::ChangePhase, "results"), "1") {
        Reaction::NewPhase { announcement, show_results } => {
            assert_eq!(announcement.content, "results");
            assert!(show_results);
        }
        _ => panic!("expected a new phase"),
    }
    match lobby.evaluate_in_room("ZZZZ", msg(MessageType::Debug, "hi"), "1") {
        Reaction::Log(line) => assert_eq!(line, "hi"),
        _ => panic!("expected a log line"),
    }
    assert!(lobby.room("ABCD").unwrap().options.is_empty());
    assert!(lobby.room("ZZZZ").is_none());
}

#[test]
fn messages_for_a_room_change_only_that_room() {
    let mut lobby = Lobby::new();
    lobby.open_room("ABCD".to_string());
    lobby.open_room("EFGH".to_string());
    match lobby.evaluate_in_room("EFGH", msg(MessageType::NewOption, "Pizza"), "1") {
        Reaction::Announce(m) => assert_eq!(m.content, "Pizza"),
        _ => panic!("expected an announcement"),
    }
    assert_eq!(lobby.room("EFGH").unwrap().options, vec!["Pizza".to_string()]);
    assert!(lobby.room("ABCD").unwrap().options.is_empty());
}

#[test]
fn players_join_and_leave_rooms_through_the_lobby() {
    let mut lobby = Lobby::new();
    lobby.open_room("ABCD".to_string());
    let a = lobby.admit_player("ABCD", &msg(MessageType::NewPlayer, "")).unwrap();
    assert_eq!(a.player_id, "1");
    assert!(a.is_new);
    let (id, m) = lobby.add_new_player_in_room("ABCD");
    assert_eq!(id, "2");
    assert_eq!(m.content, "0/2");
    let m = lobby.disconnect_player_in_room("ABCD", "1");
    assert_eq!(m.content, "0/1");
    let m = lobby.active_old_player_in_room("ABCD", "1");
    assert_eq!(m.content, "0/2");
    match lobby.evaluate_in_room("ABCD", msg(MessageType::ToggleReady, ""), "2") {
        Reaction::Announce(m) => assert_eq!(m.content, "1/2"),
        _ => panic!("expected an announcement"),
    }
    let b = lobby.admit_player("ABCD", &msg(MessageType::PlayerToken, "2")).unwrap();
    assert!(!b.is_new);
    assert_eq!(lobby.room("ABCD").unwrap().players.len(), 2);
}
