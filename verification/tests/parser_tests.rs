use chat_project::messages::{IncomingMsg, Message};
use chat_project::names::{is_valid_room_name, is_valid_user_name};
use chat_project::parser::{parse_incoming, Command, ParseError, ParsedAction};

#[test]
fn test_name_regex() {
    // good
    assert!(is_valid_user_name("@robert"));
    assert!(is_valid_user_name("@rgp"));
    // bad
    assert!(!is_valid_user_name("@012345678901234567891"));
    assert!(!is_valid_user_name("@gj"));
}

#[test]
fn test_parse_incoming_empty_input() {
    assert_eq!(parse_incoming(""), ParsedAction::Ignore);
}

#[test]
fn test_parse_incoming_quit() {
    assert_eq!(
        parse_incoming("QUIT"),
        ParsedAction::Process(IncomingMsg::Quit)
    );
    assert_eq!(
        parse_incoming("QUIT other stuff"),
        ParsedAction::Process(IncomingMsg::Quit)
    );
    assert_eq!(parse_incoming("quit other stuff"), ParsedAction::Ignore);
    assert_eq!(parse_incoming("quit"), ParsedAction::Ignore);
}

#[test]
fn test_parse_incoming_name() {
    assert_eq!(
        parse_incoming("NAME @robert"),
        ParsedAction::Process(IncomingMsg::Name("@robert".to_string()))
    );
    assert_eq!(
        parse_incoming("NAME"),
        ParsedAction::Error(Command::Name, ParseError::BadArguments)
    );
    assert_eq!(
        parse_incoming("NAME @robert Steve"),
        ParsedAction::Error(Command::Name, ParseError::BadArguments)
    );
    assert_eq!(
        parse_incoming("NAME @robert**"),
        ParsedAction::Error(Command::Name, ParseError::BadNameFormat)
    );
    assert_eq!(parse_incoming("name"), ParsedAction::Ignore);
}

#[test]
fn test_parse_incoming_join() {
    assert_eq!(
        parse_incoming("JOIN #room1"),
        ParsedAction::Process(IncomingMsg::Join("#room1".to_string()))
    );
    assert_eq!(
        parse_incoming("JOIN"),
        ParsedAction::Error(Command::Join, ParseError::BadArguments)
    );
    assert_eq!(
        parse_incoming("JOIN #room #room2"),
        ParsedAction::Error(Command::Join, ParseError::BadArguments)
    );
    assert_eq!(
        parse_incoming("JOIN @room"),
        ParsedAction::Error(Command::Join, ParseError::BadRoomNameFormat)
    );
    assert_eq!(parse_incoming("join"), ParsedAction::Ignore);
}

#[test]
fn test_parse_incoming_leave() {
    assert_eq!(
        parse_incoming("LEAVE #room1"),
        ParsedAction::Process(IncomingMsg::Leave("#room1".to_string()))
    );
    assert_eq!(
        parse_incoming("LEAVE"),
        ParsedAction::Error(Command::Leave, ParseError::BadArguments)
    );
    assert_eq!(
        parse_incoming("LEAVE #room #room2"),
        ParsedAction::Error(Command::Leave, ParseError::BadArguments)
    );
    assert_eq!(
        parse_incoming("LEAVE @room"),
        ParsedAction::Error(Command::Leave, ParseError::BadRoomNameFormat)
    );
    assert_eq!(parse_incoming("leave"), ParsedAction::Ignore);
}

#[test]
fn test_parse_incoming_say() {
    assert_eq!(
        parse_incoming("SAY #room341 hello everyone!"),
        ParsedAction::Process(IncomingMsg::SayRoom(
            "#room341".to_string(),
            "hello everyone!".to_string()
        ))
    );
    assert_eq!(
        parse_incoming("SAY @kelsey hi kelsey :)"),
        ParsedAction::Process(IncomingMsg::SayUser(
            "@kelsey".to_string(),
            "hi kelsey :)".to_string()
        ))
    );
    assert_eq!(
        parse_incoming("SAY #room++ hi there room!"),
        ParsedAction::Error(Command::Say, ParseError::BadRoomNameFormat)
    );
    assert_eq!(
        parse_incoming("SAY @friend% hi there friend!"),
        ParsedAction::Error(Command::Say, ParseError::BadNameFormat)
    );
    assert_eq!(
        parse_incoming("SAY @dave"),
        ParsedAction::Error(Command::Say, ParseError::BadArguments)
    );
    assert_eq!(
        parse_incoming("SAY #happy"),
        ParsedAction::Error(Command::Say, ParseError::BadArguments)
    );
    assert_eq!(
        parse_incoming("SAY "),
        ParsedAction::Error(Command::Say, ParseError::BadArguments)
    );
}

#[test]
fn test_parse_incoming_rooms() {
    assert_eq!(
        parse_incoming("ROOMS"),
        ParsedAction::Process(IncomingMsg::Rooms)
    );
    assert_eq!(
        parse_incoming("ROOMS stuff"),
        ParsedAction::Error(Command::Rooms, ParseError::BadArguments)
    );
}

#[test]
fn test_parse_incoming_users() {
    assert_eq!(
        parse_incoming("USERS #test123"),
        ParsedAction::Process(IncomingMsg::Users("#test123".to_string()))
    );
    assert_eq!(
        parse_incoming("USERS"),
        ParsedAction::Error(Command::Users, ParseError::BadArguments)
    );
    assert_eq!(
        parse_incoming("USERS #juice #man"),
        ParsedAction::Error(Command::Users, ParseError::BadArguments)
    );
}

#[test]
fn test_parse_incoming_pong() {
    assert_eq!(
        parse_incoming("PONG"),
        ParsedAction::Process(IncomingMsg::Pong)
    );
    assert_eq!(
        parse_incoming("PONG abc def"),
        ParsedAction::Error(Command::Pong, ParseError::BadArguments)
    );
}

#[test]
fn test_name_shape_bounds() {
    // shortest and longest legal bodies: 3 and 20 characters
    assert!(is_valid_user_name("@abc"));
    assert!(is_valid_user_name("@01234567890123456789"));
    assert!(!is_valid_user_name("@ab"));
    assert!(!is_valid_user_name("@"));
    assert!(!is_valid_user_name("abc"));
    assert!(!is_valid_user_name(""));
    assert!(is_valid_room_name("#abc"));
    assert!(is_valid_room_name("#A-b_9"));
    assert!(!is_valid_room_name("@abc"));
    assert!(!is_valid_room_name("#ab cd"));
}

#[test]
fn test_parse_say_empty_target() {
    // two adjacent spaces make an empty target token: neither prefix applies
    assert_eq!(
        parse_incoming("SAY  hello"),
        ParsedAction::Error(Command::Say, ParseError::BadArguments)
    );
}

#[test]
fn test_parse_double_space_arity() {
    // split does not collapse runs of spaces: the empty token counts
    assert_eq!(
        parse_incoming("NAME  @robert"),
        ParsedAction::Error(Command::Name, ParseError::BadArguments)
    );
}

#[test]
fn test_parse_round_trip() {
    // parsing a formatted message yields the message back, for every variant
    let msgs = vec![
        IncomingMsg::Name("@alice".to_string()),
        IncomingMsg::Join("#general".to_string()),
        IncomingMsg::Leave("#general".to_string()),
        IncomingMsg::SayRoom("#general".to_string(), "hi  all".to_string()),
        IncomingMsg::SayUser("@bob".to_string(), "hello bob".to_string()),
        IncomingMsg::Users("#general".to_string()),
        IncomingMsg::Rooms,
        IncomingMsg::Quit,
        IncomingMsg::Pong,
    ];
    for m in msgs {
        let line = m.to_line();
        assert_eq!(parse_incoming(&line), ParsedAction::Process(m));
    }
}

#[test]
fn test_parse_is_pure() {
    // equal inputs yield equal outputs
    let a = parse_incoming("SAY #room1 one two  three");
    let b = parse_incoming("SAY #room1 one two  three");
    assert_eq!(a, b);
}
