use rank_rooms::lobby::{
    active_old_player, add_new_player, add_option_to_room, disconnect_player, evaluate_parsed_msg,
    find_player, get_player_id, has_option, is_results_phase, options_to_send, ready_player_count_message,
    remove_option_from_room, switch_player_ready, update_player_option_scores, Reaction,
};
use rank_rooms::message::{to_server_message_json, ClientMessage, JoinRequest, MessageType};
use rank_rooms::state::{build_gamestate, build_player, send_from_tower, GameState};

fn strings(items: &[&str]) -> Vec<String> {
    items.iter().map(|s| s.to_string()).collect()
}

fn message(message_type: MessageType, content: &str) -> ClientMessage {
    ClientMessage { message_type, content: content.to_string() }
}

fn room_with_players(n: usize) -> GameState {
    let mut g = build_gamestate();
    for _ in 0..n {
        add_new_player(&mut g);
    }
    g
}

#[test]
fn fresh_room_is_empty() {
    let g = build_gamestate();
    assert!(g.players.is_empty());
    assert!(g.options.is_empty());
    assert_eq!(g.latest_id, 0);
}

#[test]
fn new_player_is_connected_and_not_ready() {
    let p = build_player("7".to_string());
    assert!(p.option_order.is_empty());
    assert_eq!(p.name, "7");
    assert!(!p.ready);
    assert!(p.is_connected);
}

#[test]
fn new_players_get_consecutive_ids() {
    let mut g = build_gamestate();
    let (first, m1) = add_new_player(&mut g);
    let (second, m2) = add_new_player(&mut g);
    assert_eq!(first, "1");
    assert_eq!(second, "2");
    assert_eq!(g.latest_id, 2);
    assert_eq!(m1.message_type, MessageType::ToggleReady);
    assert_eq!(m1.content, "0/1");
    assert_eq!(m2.content, "0/2");
    assert_eq!(g.players.len(), 2);
    assert_eq!(g.players[1].name, "2");
}

#[test]
fn ids_go_past_nine() {
    let mut g = room_with_players(9);
    let (id, _) = add_new_player(&mut g);
    assert_eq!(id, "10");
    g.latest_id = 4294967294;
    let (id, _) = add_new_player(&mut g);
    assert_eq!(id, "4294967295");
}

#[test]
fn ready_count_counts_ready_and_connected_players() {
    let mut g = room_with_players(3);
    g.players[0].ready = true;
    g.players[2].is_connected = false;
    let m = ready_player_count_message(&g.players);
    assert_eq!(m.message_type, MessageType::ToggleReady);
    assert_eq!(m.content, "1/2");
    let empty: Vec<rank_rooms::state::Player> = Vec::new();
    assert_eq!(ready_player_count_message(&empty).content, "0/0");
}

#[test]
fn toggling_ready_flips_one_player() {
    let mut g = room_with_players(2);
    let m = switch_player_ready(&mut g, "2");
    assert!(!g.players[0].ready);
    assert!(g.players[1].ready);
    assert_eq!(m.content, "1/2");
    let m = switch_player_ready(&mut g, "2");
    assert!(!g.players[1].ready);
    assert_eq!(m.content, "0/2");
}

#[test]
fn toggling_ready_twice_restores_players() {
    let mut g = room_with_players(3);
    g.players[0].ready = true;
    let before: Vec<(String, bool, bool)> =
        g.players.iter().map(|p| (p.name.clone(), p.ready, p.is_connected)).collect();
    switch_player_ready(&mut g, "1");
    switch_player_ready(&mut g, "1");
    let after: Vec<(String, bool, bool)> =
        g.players.iter().map(|p| (p.name.clone(), p.ready, p.is_connected)).collect();
    assert_eq!(before, after);
}

#[test]
fn toggling_an_unknown_player_changes_nothing() {
    let mut g = room_with_players(2);
    let m = switch_player_ready(&mut g, "99");
    assert!(g.players.iter().all(|p| !p.ready));
    assert_eq!(m.content, "0/2");
}

#[test]
fn only_the_first_player_with_a_name_changes() {
    let mut g = build_gamestate();
    g.players.push(build_player("a".to_string()));
    g.players.push(build_player("a".to_string()));
    switch_player_ready(&mut g, "a");
    assert!(g.players[0].ready);
    assert!(!g.players[1].ready);
}

#[test]
fn disconnecting_clears_ready_and_connected() {
    let mut g = room_with_players(2);
    switch_player_ready(&mut g, "1");
    let m = disconnect_player(&mut g, "1");
    assert!(!g.players[0].ready);
    assert!(!g.players[0].is_connected);
    assert_eq!(m.content, "0/1");
}

#[test]
fn returning_player_is_connected_again() {
    let mut g = room_with_players(2);
    disconnect_player(&mut g, "2");
    let m = active_old_player(&mut g, "2");
    assert!(g.players[1].is_connected);
    assert!(!g.players[1].ready);
    assert_eq!(m.content, "0/2");
}

#[test]
fn options_are_added_once_and_never_empty() {
    let mut g = build_gamestate();
    let m = add_option_to_room(&mut g, "Pizza".to_string()).unwrap();
    assert_eq!(m.message_type, MessageType::NewOption);
    assert_eq!(m.content, "Pizza");
    assert!(add_option_to_room(&mut g, "Pizza".to_string()).is_none());
    assert!(add_option_to_room(&mut g, "".to_string()).is_none());
    assert_eq!(g.options, strings(&["Pizza"]));
}

#[test]
fn deleting_an_option_removes_every_copy() {
    let mut g = build_gamestate();
    g.options = strings(&["a", "b", "a", "c"]);
    let m = remove_option_from_room(&mut g, "a".to_string());
    assert_eq!(m.message_type, MessageType::DeleteOption);
    assert_eq!(m.content, "a");
    assert_eq!(g.options, strings(&["b", "c"]));
    let m = remove_option_from_room(&mut g, "zzz".to_string());
    assert_eq!(m.content, "zzz");
    assert_eq!(g.options, strings(&["b", "c"]));
}

#[test]
fn deleting_a_new_option_undoes_adding_it() {
    let mut g = build_gamestate();
    g.options = strings(&["x", "y"]);
    add_option_to_room(&mut g, "z".to_string());
    remove_option_from_room(&mut g, "z".to_string());
    assert_eq!(g.options, strings(&["x", "y"]));
}

#[test]
fn server_messages_are_framed_as_json() {
    assert_eq!(
        to_server_message_json(MessageType::NewOption, "Pizza".to_string()),
        r#"{"message_type":"NewOption","content":"Pizza"}"#
    );
    assert_eq!(
        to_server_message_json(MessageType::ToggleReady, "1/2".to_string()),
        r#"{"message_type":"ToggleReady","content":"1/2"}"#
    );
    assert_eq!(
        to_server_message_json(MessageType::ChangePhase, "".to_string()),
        r#"{"message_type":"ChangePhase","content":""}"#
    );
}

#[test]
fn server_message_content_is_escaped() {
    assert_eq!(
        to_server_message_json(MessageType::Debug, "a\"b\\c\nd".to_string()),
        r#"{"message_type":"Debug","content":"a\"b\\c\nd"}"#
    );
}

#[test]
fn message_type_names_match_their_variants() {
    assert_eq!(MessageType::NewPlayer.name(), "NewPlayer");
    assert_eq!(MessageType::PlayerToken.name(), "PlayerToken");
    assert_eq!(MessageType::OptionsOrder.name(), "OptionsOrder");
    assert_eq!(MessageType::NewOption.name(), "NewOption");
    assert_eq!(MessageType::DeleteOption.name(), "DeleteOption");
    assert_eq!(MessageType::ToggleReady.name(), "ToggleReady");
    assert_eq!(MessageType::ChangePhase.name(), "ChangePhase");
    assert_eq!(MessageType::Debug.name(), "Debug");
}

#[test]
fn tower_sends_the_json_of_a_message() {
    let g = build_gamestate();
    let mut listener = g.tower.subscribe();
    send_from_tower(MessageType::NewOption, "Tacos".to_string(), &g.tower);
    assert_eq!(
        listener.try_recv().unwrap(),
        r#"{"message_type":"NewOption","content":"Tacos"}"#
    );
}

#[test]
fn tower_without_listeners_drops_the_message() {
    let g = build_gamestate();
    send_from_tower(MessageType::Debug, "nobody hears".to_string(), &g.tower);
}

#[test]
fn results_phase_is_recognised_in_any_case() {
    assert!(is_results_phase("results"));
    assert!(is_results_phase("Results"));
    assert!(is_results_phase("RESULTS"));
    assert!(!is_results_phase("result"));
    assert!(!is_results_phase("results "));
    assert!(!is_results_phase("ranking"));
    assert!(!is_results_phase(""));
}

#[test]
fn handshake_messages_after_the_handshake_are_logged() {
    let mut g = room_with_players(1);
    match evaluate_parsed_msg(message(MessageType::NewPlayer, "x"), &mut g, "1") {
        Reaction::Log(line) => assert_eq!(
            line,
            "Got NewPlayer Client Message but should have already been handled in handshake"
        ),
        _ => panic!("expected a log line"),
    }
    match evaluate_parsed_msg(message(MessageType::PlayerToken, "x"), &mut g, "1") {
        Reaction::Log(line) => assert_eq!(
            line,
            "Got PlayerToken Client Message but should have already been handled in handshake"
        ),
        _ => panic!("expected a log line"),
    }
    assert_eq!(g.players.len(), 1);
}

#[test]
fn messages_update_the_room() {
    let mut g = room_with_players(2);
    match evaluate_parsed_msg(message(MessageType::NewOption, "Sushi"), &mut g, "1") {
        Reaction::Announce(m) => {
            assert_eq!(m.message_type, MessageType::NewOption);
            assert_eq!(m.content, "Sushi");
        }
        _ => panic!("expected an announcement"),
    }
    assert!(matches!(
        evaluate_parsed_msg(message(MessageType::NewOption, "Sushi"), &mut g, "1"),
        Reaction::Nothing
    ));
    match evaluate_parsed_msg(message(MessageType::ToggleReady, ""), &mut g, "1") {
        Reaction::Announce(m) => assert_eq!(m.content, "1/2"),
        _ => panic!("expected an announcement"),
    }
    match evaluate_parsed_msg(message(MessageType::DeleteOption, "Sushi"), &mut g, "1") {
        Reaction::Announce(m) => {
            assert_eq!(m.message_type, MessageType::DeleteOption);
            assert_eq!(m.content, "Sushi");
        }
        _ => panic!("expected an announcement"),
    }
    assert!(g.options.is_empty());
    assert!(matches!(
        evaluate_parsed_msg(message(MessageType::OptionsOrder, "b,a"), &mut g, "1"),
        Reaction::Nothing
    ));
    assert_eq!(g.players[0].option_order, strings(&["b", "a"]));
    assert!(g.players[1].option_order.is_empty());
    match evaluate_parsed_msg(message(MessageType::Debug, "hello"), &mut g, "1") {
        Reaction::Log(line) => assert_eq!(line, "hello"),
        _ => panic!("expected a log line"),
    }
}

#[test]
fn phase_changes_are_announced() {
    let mut g = build_gamestate();
    match evaluate_parsed_msg(message(MessageType::ChangePhase, "Results"), &mut g, "1") {
        Reaction::NewPhase { announcement, show_results } => {
            assert_eq!(announcement.message_type, MessageType::ChangePhase);
            assert_eq!(announcement.content, "Results");
            assert!(show_results);
        }
        _ => panic!("expected a new phase"),
    }
    match evaluate_parsed_msg(message(MessageType::ChangePhase, "ranking"), &mut g, "1") {
        Reaction::NewPhase { show_results, .. } => assert!(!show_results),
        _ => panic!("expected a new phase"),
    }
}

#[test]
fn handshake_admits_new_and_returning_players() {
    let mut g = build_gamestate();
    let a = get_player_id(&mut g, &message(MessageType::NewPlayer, "")).unwrap();
    assert!(a.is_new);
    assert_eq!(a.player_id, "1");
    assert_eq!(a.ready_count.content, "0/1");
    disconnect_player(&mut g, "1");
    let b = get_player_id(&mut g, &message(MessageType::PlayerToken, "1")).unwrap();
    assert!(!b.is_new);
    assert_eq!(b.player_id, "1");
    assert!(g.players[0].is_connected);
    assert_eq!(g.players.len(), 1);
    let c = get_player_id(&mut g, &message(MessageType::PlayerToken, "42")).unwrap();
    assert!(c.is_new);
    assert_eq!(c.player_id, "2");
    assert!(get_player_id(&mut g, &message(MessageType::ToggleReady, "")).is_none());
    assert_eq!(g.players.len(), 2);
}

#[test]
fn ranked_options_come_first() {
    let room = strings(&["a", "b", "c", "d"]);
    let ranked = strings(&["c", "a"]);
    assert_eq!(options_to_send(&room, &ranked), strings(&["c", "a", "b", "d"]));
    assert_eq!(options_to_send(&room, &Vec::new()), room);
    assert_eq!(options_to_send(&Vec::new(), &ranked), ranked);
}

#[test]
fn join_request_holds_a_code() {
    let r = JoinRequest { room_code: "ABCD".to_string() };
    assert_eq!(r.room_code, "ABCD");
}

#[test]
fn find_player_gives_the_first_match() {
    let mut g = build_gamestate();
    g.players.push(build_player("x".to_string()));
    g.players.push(build_player("y".to_string()));
    g.players.push(build_player("y".to_string()));
    assert_eq!(find_player(&g.players, &"y".to_string()), Some(1));
    assert_eq!(find_player(&g.players, &"z".to_string()), None);
}

#[test]
fn has_option_looks_through_all_options() {
    let options = strings(&["a", "b"]);
    assert!(has_option(&options, &"b".to_string()));
    assert!(!has_option(&options, &"c".to_string()));
    assert!(!has_option(&Vec::new(), &"a".to_string()));
}

#[test]
fn new_player_ids_never_repeat() {
    let mut g = build_gamestate();
    let mut seen: Vec<String> = Vec::new();
    for _ in 0..25 {
        let (id, _) = add_new_player(&mut g);
        assert!(!seen.contains(&id));
        seen.push(id);
    }
    switch_player_ready(&mut g, "3");
    disconnect_player(&mut g, "4");
    active_old_player(&mut g, "4");
    let names: Vec<String> = g.players.iter().map(|p| p.name.clone()).collect();
    assert_eq!(names, seen);
}

#[test]
fn options_stay_unique_and_non_empty() {
    let mut g = build_gamestate();
    for o in ["a", "b", "", "a", "c", "b"] {
        add_option_to_room(&mut g, o.to_string());
    }
    remove_option_from_room(&mut g, "b".to_string());
    add_option_to_room(&mut g, "b".to_string());
    assert_eq!(g.options, strings(&["a", "c", "b"]));
}

#[test]
fn a_players_order_is_recorded_without_empty_names() {
    let mut g = room_with_players(2);
    update_player_option_scores(&mut g, "2", ",x,,y,".to_string());
    assert_eq!(g.players[1].option_order, strings(&["x", "y"]));
    assert!(g.players[0].option_order.is_empty());
    update_player_option_scores(&mut g, "2", "y".to_string());
    assert_eq!(g.players[1].option_order, strings(&["y"]));
    update_player_option_scores(&mut g, "9", "z".to_string());
    assert_eq!(g.players.len(), 2);
    assert_eq!(g.players[1].option_order, strings(&["y"]));
}

#[test]
fn plain_text_is_quoted_as_is() {
    let json = to_server_message_json(MessageType::NewOption, "Crème brûlée 100%".to_string());
    assert_eq!(json, r#"{"message_type":"NewOption","content":"Crème brûlée 100%"}"#);
}

#[test]
fn control_characters_are_escaped() {
    assert_eq!(
        to_server_message_json(MessageType::Debug, "\u{8}\t\u{c}\r\u{1}\u{1f}/".to_string()),
        r#"{"message_type":"Debug","content":"\b\t\f\r\u0001\u001f/"}"#
    );
}
