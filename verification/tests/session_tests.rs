use chat_project::messages::{FormatError, IncomingMsg, Message, OutgoingMsg};
use chat_project::parser::{ParseError, ParsedAction};
use chat_project::server_state::{ServerError, ServerState};
use chat_project::session::{
    active_action, active_line, registration_action, registration_line, ActiveOutcome,
    RegistrationStep,
};
use chat_project::watchdog::{watchdog_event, PingPongBall, PING_AFTER_SECS, TIMEOUT_AFTER_SECS};
use tokio::sync::mpsc;

#[test]
fn test_outgoing_lines() {
    assert_eq!(OutgoingMsg::Ping.to_line(), "PING");
    assert_eq!(OutgoingMsg::Connected.to_line(), "CONNECTED");
    assert_eq!(OutgoingMsg::Registered.to_line(), "REGISTERED");
    assert_eq!(
        OutgoingMsg::SaidUser("@alice".to_string(), "hello bob".to_string()).to_line(),
        "@alice SAID hello bob"
    );
    assert_eq!(
        OutgoingMsg::SaidRoom(
            "#gen".to_string(),
            "@alice".to_string(),
            "hi all".to_string()
        )
        .to_line(),
        "#gen @alice SAID hi all"
    );
    assert_eq!(
        OutgoingMsg::Room("#gen".to_string()).to_line(),
        "ROOM #gen"
    );
    assert_eq!(
        OutgoingMsg::User("@alice".to_string()).to_line(),
        "USER @alice"
    );
    assert_eq!(
        OutgoingMsg::Joined("#gen".to_string(), "@alice".to_string()).to_line(),
        "#gen @alice JOINED"
    );
    assert_eq!(
        OutgoingMsg::Left("#gen".to_string(), "@alice".to_string()).to_line(),
        "#gen @alice LEFT"
    );
}

#[test]
fn test_incoming_lines() {
    assert_eq!(
        IncomingMsg::Name("@alice".to_string()).to_line(),
        "NAME @alice"
    );
    assert_eq!(
        IncomingMsg::SayRoom("#gen".to_string(), "hi all".to_string()).to_line(),
        "SAY #gen hi all"
    );
    assert_eq!(IncomingMsg::Rooms.to_line(), "ROOMS");
    assert_eq!(IncomingMsg::Quit.to_line(), "QUIT");
}

#[test]
fn test_error_lines() {
    assert_eq!(ParseError::BadArguments.to_line(), "ERROR bad arguments");
    assert_eq!(ParseError::BadNameFormat.to_line(), "ERROR bad name format");
    assert_eq!(
        ParseError::BadRoomNameFormat.to_line(),
        "ERROR bad room name format"
    );
    assert_eq!(
        ServerError::RoomUnknown("#gen".to_string()).to_line(),
        "ERROR room unknown #gen"
    );
    assert_eq!(
        ServerError::UserAlreadyExists("@alice".to_string()).to_line(),
        "ERROR user already exists @alice"
    );
    assert_eq!(
        ServerError::UserNotInRoom("@alice".to_string(), "#gen".to_string()).to_line(),
        "ERROR user not in room @alice #gen"
    );
    assert_eq!(
        ServerError::UserUnknown("@alice".to_string()).to_line(),
        "ERROR user unknown @alice"
    );
    assert_eq!(
        FormatError::MaxLineLengthExceeded.to_line(),
        "ERROR max length reached"
    );
}

#[test]
fn test_watchdog_thresholds() {
    assert_eq!(watchdog_event(0), None);
    assert_eq!(watchdog_event(PING_AFTER_SECS - 1), None);
    assert_eq!(watchdog_event(PING_AFTER_SECS), Some(PingPongBall::SendPing));
    assert_eq!(
        watchdog_event(TIMEOUT_AFTER_SECS - 1),
        Some(PingPongBall::SendPing)
    );
    assert_eq!(
        watchdog_event(TIMEOUT_AFTER_SECS),
        Some(PingPongBall::PongTimeout)
    );
    assert_eq!(watchdog_event(100_000), Some(PingPongBall::PongTimeout));
}

#[test]
fn test_registration_happy_path() {
    let mut state = ServerState::new();
    let (sender, _receiver) = mpsc::unbounded_channel();
    let step = registration_line(&mut state, &sender, "NAME @alice");
    assert_eq!(step, RegistrationStep::Registered("@alice".to_string()));
    assert!(state.contains_user("@alice"));
}

#[test]
fn test_registration_duplicate_name() {
    let mut state = ServerState::new();
    let (sender_a, _ra) = mpsc::unbounded_channel();
    assert_eq!(
        registration_line(&mut state, &sender_a, "NAME @alice"),
        RegistrationStep::Registered("@alice".to_string())
    );
    let (sender_b, _rb) = mpsc::unbounded_channel();
    assert_eq!(
        registration_line(&mut state, &sender_b, "NAME @alice"),
        RegistrationStep::Reply("ERROR user already exists @alice".to_string())
    );
    // the connection stays open; a fresh name then succeeds
    assert_eq!(
        registration_line(&mut state, &sender_b, "NAME @alice2"),
        RegistrationStep::Registered("@alice2".to_string())
    );
}

#[test]
fn test_registration_other_commands_ignored() {
    let mut state = ServerState::new();
    let (sender, _receiver) = mpsc::unbounded_channel();
    assert_eq!(
        registration_line(&mut state, &sender, "JOIN #gen"),
        RegistrationStep::Stay
    );
    assert_eq!(
        registration_line(&mut state, &sender, "JOIN"),
        RegistrationStep::Stay
    );
    assert_eq!(
        registration_line(&mut state, &sender, "NAME alice"),
        RegistrationStep::Reply("ERROR bad name format".to_string())
    );
    assert_eq!(
        registration_line(&mut state, &sender, "QUIT"),
        RegistrationStep::Quit
    );
    assert_eq!(
        registration_line(&mut state, &sender, "PONG"),
        RegistrationStep::Pong
    );
    assert_eq!(
        registration_action(&mut state, &sender, ParsedAction::Ignore),
        RegistrationStep::Stay
    );
    assert!(!state.contains_user("@alice"));
}

fn registered(state: &mut ServerState, name: &str) -> mpsc::UnboundedReceiver<OutgoingMsg> {
    let (sender, receiver) = mpsc::unbounded_channel();
    let line = format!("NAME {}", name);
    let step = registration_line(state, &sender, &line);
    assert_eq!(step, RegistrationStep::Registered(name.to_string()));
    receiver
}

#[test]
fn test_active_private_message() {
    // two registered clients; one says to the other; the addressee's
    // mailbox gets the line, the sender gets nothing back
    let mut state = ServerState::new();
    let _ra = registered(&mut state, "@alice");
    let mut rb = registered(&mut state, "@bob");
    let mut alice = "@alice".to_string();
    let out = active_line(&mut state, &mut alice, "SAY @bob hello bob");
    assert_eq!(
        out,
        ActiveOutcome { lines: vec![], quit: false, got_pong: false }
    );
    assert_eq!(
        rb.try_recv(),
        Ok(OutgoingMsg::SaidUser(
            "@alice".to_string(),
            "hello bob".to_string()
        ))
    );
}

#[test]
fn test_active_room_fanout_suppresses_sender() {
    let mut state = ServerState::new();
    let mut ra = registered(&mut state, "@aaa");
    let mut rb = registered(&mut state, "@bbb");
    let mut rc = registered(&mut state, "@ccc");
    for name in ["@aaa", "@bbb", "@ccc"] {
        let mut n = name.to_string();
        let out = active_line(&mut state, &mut n, "JOIN #gen");
        assert!(out.lines.is_empty());
    }
    let mut sender_name = "@aaa".to_string();
    let out = active_line(&mut state, &mut sender_name, "SAY #gen hi all");
    assert!(out.lines.is_empty());
    let expected = OutgoingMsg::SaidRoom(
        "#gen".to_string(),
        "@aaa".to_string(),
        "hi all".to_string(),
    );
    assert_eq!(rb.try_recv(), Ok(expected.clone()));
    assert_eq!(rc.try_recv(), Ok(expected));
    assert!(ra.try_recv().is_err());
}

#[test]
fn test_active_rename_updates_name() {
    let mut state = ServerState::new();
    let _ra = registered(&mut state, "@alice");
    let mut name = "@alice".to_string();
    let out = active_line(&mut state, &mut name, "NAME @wonderland");
    assert!(out.lines.is_empty());
    assert_eq!(name, "@wonderland");
    assert!(state.contains_user("@wonderland"));
    assert!(!state.contains_user("@alice"));
}

#[test]
fn test_active_rooms_and_users_listing() {
    let mut state = ServerState::new();
    let _ra = registered(&mut state, "@alice");
    let _rb = registered(&mut state, "@bob");
    let mut alice = "@alice".to_string();
    let mut bob = "@bob".to_string();
    assert!(active_line(&mut state, &mut alice, "JOIN #gen").lines.is_empty());
    assert!(active_line(&mut state, &mut bob, "JOIN #gen").lines.is_empty());
    assert!(active_line(&mut state, &mut alice, "JOIN #ops").lines.is_empty());

    let out = active_line(&mut state, &mut alice, "ROOMS");
    let mut rooms = out.lines.clone();
    rooms.sort();
    assert_eq!(rooms, vec!["ROOM #gen".to_string(), "ROOM #ops".to_string()]);

    let out = active_line(&mut state, &mut alice, "USERS #gen");
    let mut users = out.lines.clone();
    users.sort();
    assert_eq!(
        users,
        vec!["USER @alice".to_string(), "USER @bob".to_string()]
    );

    let out = active_line(&mut state, &mut alice, "USERS #nowhere");
    assert_eq!(out.lines, vec!["ERROR room unknown #nowhere".to_string()]);
}

#[test]
fn test_active_leave_empties_room() {
    let mut state = ServerState::new();
    let _ra = registered(&mut state, "@alice");
    let mut alice = "@alice".to_string();
    assert!(active_line(&mut state, &mut alice, "JOIN #gen").lines.is_empty());
    assert!(active_line(&mut state, &mut alice, "LEAVE #gen").lines.is_empty());
    let out = active_line(&mut state, &mut alice, "USERS #gen");
    assert_eq!(out.lines, vec!["ERROR room unknown #gen".to_string()]);
    let out = active_line(&mut state, &mut alice, "ROOMS");
    assert!(out.lines.is_empty());
    let out = active_line(&mut state, &mut alice, "LEAVE #gen");
    assert_eq!(out.lines, vec!["ERROR room unknown #gen".to_string()]);
}

#[test]
fn test_active_quit_and_pong() {
    let mut state = ServerState::new();
    let _ra = registered(&mut state, "@alice");
    let mut alice = "@alice".to_string();
    let out = active_line(&mut state, &mut alice, "PONG");
    assert!(out.got_pong && !out.quit && out.lines.is_empty());
    let out = active_line(&mut state, &mut alice, "QUIT with trailing words");
    assert!(out.quit && !out.got_pong && out.lines.is_empty());
    // teardown is the caller's next move; the registry entry still exists
    assert!(state.contains_user("@alice"));
    assert!(state.remove_user("@alice").is_ok());
    assert!(!state.contains_user("@alice"));
}

#[test]
fn test_active_bad_input_keeps_connection_usable() {
    let mut state = ServerState::new();
    let _ra = registered(&mut state, "@alice");
    let mut alice = "@alice".to_string();
    let out = active_line(&mut state, &mut alice, "SAY #no++ hi");
    assert_eq!(out.lines, vec!["ERROR bad room name format".to_string()]);
    let out = active_line(&mut state, &mut alice, "NAME alice");
    assert_eq!(out.lines, vec!["ERROR bad name format".to_string()]);
    assert_eq!(alice, "@alice");
    // unknown commands stay silent, and valid ones still work
    let out = active_line(&mut state, &mut alice, "whatever");
    assert!(out.lines.is_empty() && !out.quit);
    assert!(active_line(&mut state, &mut alice, "JOIN #gen").lines.is_empty());
    assert!(state.user_has_room("@alice", "#gen"));
}

#[test]
fn test_active_say_to_unknown_user() {
    let mut state = ServerState::new();
    let _ra = registered(&mut state, "@alice");
    let mut alice = "@alice".to_string();
    let out = active_line(&mut state, &mut alice, "SAY @ghost boo");
    assert_eq!(out.lines, vec!["ERROR user unknown @ghost".to_string()]);
}

#[test]
fn test_active_action_matches_active_line() {
    // dispatching a pre-parsed action equals parsing the line first
    let mut state = ServerState::new();
    let _ra = registered(&mut state, "@alice");
    let mut name_a = "@alice".to_string();
    let out_a = active_action(
        &mut state,
        &mut name_a,
        ParsedAction::Process(IncomingMsg::Join("#gen".to_string())),
    );
    assert!(out_a.lines.is_empty());
    assert!(state.user_has_room("@alice", "#gen"));
}
