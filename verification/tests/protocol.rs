use metal_mayhem::command::{parse_command, ServerCommand};
use metal_mayhem::input::{
    parse_client_message, parse_player_input, ClientMessage, ClientMessageError, InputError,
};

#[test]
fn start_command_carries_its_data() {
    let m = parse_command("start|||[{\"player_id\":1}]").unwrap();
    assert_eq!(m.command, ServerCommand::Start);
    assert_eq!(m.data, "[{\"player_id\":1}]");
}

#[test]
fn stop_and_input_commands() {
    let m = parse_command("stop").unwrap();
    assert_eq!(m.command, ServerCommand::Stop);
    assert_eq!(m.data, "");
    let m = parse_command("input|||3|(0.5,-1,1)").unwrap();
    assert_eq!(m.command, ServerCommand::PlayerInput);
    assert_eq!(m.data, "3|(0.5,-1,1)");
}

#[test]
fn command_data_stops_at_next_separator() {
    let m = parse_command("start|||abc|||def").unwrap();
    assert_eq!(m.data, "abc");
    let m = parse_command("start||||x").unwrap();
    assert_eq!(m.data, "|x");
    let m = parse_command("input|||").unwrap();
    assert_eq!(m.data, "");
}

#[test]
fn unknown_commands_are_refused() {
    assert!(parse_command("").is_none());
    assert!(parse_command("Start|||x").is_none());
    assert!(parse_command("start ||| x").is_none());
    assert!(parse_command("starts").is_none());
    assert!(parse_command("|||start").is_none());
}

#[test]
fn command_data_keeps_unicode() {
    let m = parse_command("start|||città é").unwrap();
    assert_eq!(m.data, "città é");
}

#[test]
fn player_input_is_read_field_by_field() {
    let m = parse_player_input("7|(0.5,-1,1)").unwrap();
    assert_eq!(m.player_id, 7);
    assert_eq!(m.mov_x, "0.5");
    assert_eq!(m.mov_y, "-1");
    assert!(m.attack);
    let m = parse_player_input("+12|[1.0,2.0,0]|ignored").unwrap();
    assert_eq!(m.player_id, 12);
    assert_eq!(m.mov_x, "1.0");
    assert_eq!(m.mov_y, "2.0");
    assert!(!m.attack);
}

#[test]
fn attack_flag_is_set_only_by_one() {
    assert!(!parse_player_input("1|(0,0,2)").unwrap().attack);
    assert!(parse_player_input("1|(0,0,001)").unwrap().attack);
    assert!(!parse_player_input("1|(0,0,0,1)").unwrap().attack);
}

#[test]
fn player_input_errors() {
    assert_eq!(parse_player_input("x|(0,0,1)").unwrap_err(), InputError::BadPlayerId);
    assert_eq!(parse_player_input("|(0,0,1)").unwrap_err(), InputError::BadPlayerId);
    assert_eq!(parse_player_input("4294967296|(0,0,1)").unwrap_err(), InputError::BadPlayerId);
    assert_eq!(parse_player_input("-1|(0,0,1)").unwrap_err(), InputError::BadPlayerId);
    assert_eq!(parse_player_input("4294967295").unwrap_err(), InputError::MissingInput);
    assert_eq!(parse_player_input("1|").unwrap_err(), InputError::BadFraming);
    assert_eq!(parse_player_input("1|(").unwrap_err(), InputError::BadFraming);
    assert_eq!(parse_player_input("1|é0,0,1)").unwrap_err(), InputError::BadFraming);
    assert_eq!(parse_player_input("1|(0,0,1é").unwrap_err(), InputError::BadFraming);
    assert_eq!(parse_player_input("1|(00)").unwrap_err(), InputError::MissingCoordinate);
    assert_eq!(parse_player_input("1|(0,0)").unwrap_err(), InputError::MissingAttack);
    assert_eq!(parse_player_input("1|(0,0,yes)").unwrap_err(), InputError::BadAttack);
    assert_eq!(parse_player_input("1|(0,0,)").unwrap_err(), InputError::BadAttack);
    assert_eq!(parse_player_input("1|(0,0,+)").unwrap_err(), InputError::BadAttack);
}

#[test]
fn largest_player_id_is_accepted() {
    assert_eq!(parse_player_input("4294967295|(0,0,0)").unwrap().player_id, u32::MAX);
}

#[test]
fn ping_is_a_keep_alive() {
    assert!(matches!(parse_client_message("ping"), Ok(ClientMessage::Ping)));
    // a padded ping is not a keep-alive: it is read as input and has no parts
    assert_eq!(
        parse_client_message(" ping ").unwrap_err(),
        ClientMessageError::MissingMovement
    );
}

#[test]
fn client_input_is_trimmed_and_split() {
    match parse_client_message("  1|0.5:-2|1\n").unwrap() {
        ClientMessage::Input { movement, attack } => {
            assert_eq!(movement, vec!["0.5".to_string(), "-2".to_string()]);
            assert!(attack);
        }
        ClientMessage::Ping => panic!("not a ping"),
    }
    match parse_client_message("\u{3000}9|1:2:3|0|x").unwrap() {
        ClientMessage::Input { movement, attack } => {
            assert_eq!(movement, vec!["1".to_string(), "2".to_string(), "3".to_string()]);
            assert!(!attack);
        }
        ClientMessage::Ping => panic!("not a ping"),
    }
}

#[test]
fn client_attack_must_be_exactly_one() {
    match parse_client_message("1|0:0|01").unwrap() {
        ClientMessage::Input { attack, .. } => assert!(!attack),
        ClientMessage::Ping => panic!("not a ping"),
    }
    match parse_client_message("1|0:0| 1").unwrap() {
        ClientMessage::Input { attack, .. } => assert!(!attack),
        ClientMessage::Ping => panic!("not a ping"),
    }
}

#[test]
fn client_message_errors() {
    assert_eq!(parse_client_message("").unwrap_err(), ClientMessageError::MissingMovement);
    assert_eq!(parse_client_message("1").unwrap_err(), ClientMessageError::MissingMovement);
    assert_eq!(parse_client_message("1|0:0").unwrap_err(), ClientMessageError::MissingAttack);
    assert_eq!(parse_client_message("1|0|1").unwrap_err(), ClientMessageError::TooFewCoordinates);
}
