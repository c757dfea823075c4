use chat_project::messages::OutgoingMsg;
use chat_project::server_state::{ServerError, ServerState, User};
use tokio::sync::mpsc::{self, error::TryRecvError};

#[test]
fn test_server_state_add_user() {
    let mut state = ServerState::new();
    assert!(!state.contains_user("@robert"));
    let (sender, _receiver) = mpsc::unbounded_channel();
    assert!(state
        .add_user("@robert".to_string(), User::new(sender))
        .is_ok());
    assert!(state.contains_user("@robert"));
    let (sender, _receiver) = mpsc::unbounded_channel();
    assert_eq!(
        state.add_user("@robert".to_string(), User::new(sender)),
        Err(ServerError::UserAlreadyExists("@robert".to_string()))
    );
}

#[test]
fn test_server_state_remove_user() {
    let mut state = ServerState::new();
    let (sender, _receiver) = mpsc::unbounded_channel();
    assert!(state
        .add_user("@robert".to_string(), User::new(sender))
        .is_ok());
    assert!(state.contains_user("@robert"));
    assert!(state.remove_user("@robert").is_ok());
    assert!(!state.contains_user("@robert"));
    assert_eq!(
        state.remove_user("@robert"),
        Err(ServerError::UserUnknown("@robert".to_string()))
    );
}

#[test]
fn test_server_state_join_room() {
    let mut state = ServerState::new();
    let (sender, _receiver) = mpsc::unbounded_channel();
    assert!(state
        .add_user("@robert".to_string(), User::new(sender))
        .is_ok());

    // join room that does not exist with user that exists
    assert!(!state.contains_room("#testroom"));
    assert!(state
        .join_room("#testroom".to_string(), "@robert".to_string())
        .is_ok());
    assert!(state.contains_room("#testroom"));
    assert!(state.user_has_room("@robert", "#testroom"));

    // join room that exists with user that exists
    let (sender, _receiver) = mpsc::unbounded_channel();
    assert!(state
        .add_user("@kelsey".to_string(), User::new(sender))
        .is_ok());
    assert!(state
        .join_room("#testroom".to_string(), "@kelsey".to_string())
        .is_ok());
    assert!(state.user_has_room("@kelsey", "#testroom"));

    // join room that does not exist with user that does not exist
    assert_eq!(
        state.join_room("#none".to_string(), "@notreal".to_string()),
        Err(ServerError::UserUnknown("@notreal".to_string()))
    );

    // join room that exists with user that does not exist
    assert_eq!(
        state.join_room("#testroom".to_string(), "@fakey".to_string()),
        Err(ServerError::UserUnknown("@fakey".to_string()))
    );
}

#[test]
fn test_server_state_leave_room() {
    let mut state = ServerState::new();
    let (sender, _receiver) = mpsc::unbounded_channel();
    assert!(state
        .add_user("@robert".to_string(), User::new(sender))
        .is_ok());
    assert!(state
        .join_room("#testroom".to_string(), "@robert".to_string())
        .is_ok());
    assert!(state.contains_room("#testroom"));
    assert!(state.user_has_room("@robert", "#testroom"));
    assert!(state.leave_room("#testroom", "@robert").is_ok());
    assert!(!state.user_has_room("@robert", "#testroom"));

    // last user to leave room makes room go away
    assert!(!state.contains_room("#testroom"));

    // room does not exist
    assert_eq!(
        state.leave_room("#fakeroom", "@robert"),
        Err(ServerError::RoomUnknown("#fakeroom".to_string()))
    );

    // user does not exist
    assert!(state
        .join_room("#testroom".to_string(), "@robert".to_string())
        .is_ok());

    assert_eq!(
        state.leave_room("#testroom", "@kelsey"),
        Err(ServerError::UserNotInRoom(
            "@kelsey".to_string(),
            "#testroom".to_string()
        ))
    );
}

#[test]
fn test_server_state_remove_user_leaves_room() {
    let mut state = ServerState::new();
    let (sender, _receiver) = mpsc::unbounded_channel();
    assert!(state
        .add_user("@kelsey".to_string(), User::new(sender))
        .is_ok());
    assert!(state
        .join_room("#applejuice".to_string(), "@kelsey".to_string())
        .is_ok());
    assert!(state.contains_room("#applejuice"));
    assert!(state.contains_user("@kelsey"));
    assert!(state.remove_user("@kelsey").is_ok());
    assert!(!state.contains_room("#applejuice"));
    assert!(!state.contains_user("@kelsey"));
}

#[test]
fn test_server_state_rename_user() {
    let mut state = ServerState::new();
    let (sender, _receiver) = mpsc::unbounded_channel();
    assert!(state
        .add_user("@kelsey".to_string(), User::new(sender))
        .is_ok());
    assert!(state
        .join_room("#applejuice".to_string(), "@kelsey".to_string())
        .is_ok());
    assert!(state
        .join_room("#testing123".to_string(), "@kelsey".to_string())
        .is_ok());

    // initial state
    assert!(state.contains_room("#applejuice"));
    assert!(state.contains_room("#testing123"));

    assert!(state.user_has_room("@kelsey", "#applejuice"));
    assert!(state.user_has_room("@kelsey", "#testing123"));

    assert!(state.room_has_user("#applejuice", "@kelsey"));
    assert!(state.room_has_user("#testing123", "@kelsey"));

    // renamed state
    assert!(state.rename_user("@kelsey", "@littleb1t").is_ok());

    assert!(!state.contains_user("@kelsey"));
    assert!(state.user_has_room("@littleb1t", "#applejuice"));
    assert!(state.user_has_room("@littleb1t", "#testing123"));

    assert!(state.room_has_user("#applejuice", "@littleb1t"));
    assert!(state.room_has_user("#testing123", "@littleb1t"));
}

#[test]
fn test_server_state_rename_user_bad() {
    let mut state = ServerState::new();
    assert_eq!(
        state.rename_user("@robert", "@bobert"),
        Err(ServerError::UserUnknown("@robert".to_string()))
    );
}

#[test]
fn test_server_state_rooms() {
    let mut state = ServerState::new();
    let (sender, _receiver) = mpsc::unbounded_channel();
    assert!(state
        .add_user("@kelsey".to_string(), User::new(sender))
        .is_ok());
    assert!(state
        .join_room("#applejuice".to_string(), "@kelsey".to_string())
        .is_ok());
    assert!(state
        .join_room("#testing123".to_string(), "@kelsey".to_string())
        .is_ok());
    assert!(state
        .join_room("#room_123".to_string(), "@kelsey".to_string())
        .is_ok());

    let mut rooms = state.rooms();
    rooms.sort();
    let mut expected = vec![
        "#applejuice".to_string(),
        "#testing123".to_string(),
        "#room_123".to_string(),
    ];
    expected.sort();
    assert_eq!(rooms, expected);
}

#[test]
fn test_server_state_users() {
    let mut state = ServerState::new();
    let (sender, _receiver) = mpsc::unbounded_channel();
    assert!(state
        .add_user("@kelsey".to_string(), User::new(sender))
        .is_ok());
    assert!(state
        .join_room("#applejuice".to_string(), "@kelsey".to_string())
        .is_ok());
    let (sender, _receiver) = mpsc::unbounded_channel();
    assert!(state
        .add_user("@robert".to_string(), User::new(sender))
        .is_ok());
    assert!(state
        .join_room("#applejuice".to_string(), "@robert".to_string())
        .is_ok());
    let (sender, _receiver) = mpsc::unbounded_channel();
    assert!(state
        .add_user("@ch4ch4".to_string(), User::new(sender))
        .is_ok());
    assert!(state
        .join_room("#applejuice".to_string(), "@ch4ch4".to_string())
        .is_ok());

    let mut users = state.users("#applejuice").unwrap();
    users.sort();
    let mut expected = vec![
        "@ch4ch4".to_string(),
        "@robert".to_string(),
        "@kelsey".to_string(),
    ];
    expected.sort();
    assert_eq!(users, expected);

    assert_eq!(
        state.users("#notrealroom"),
        Err(ServerError::RoomUnknown("#notrealroom".to_string()))
    );
}

#[test]
fn test_server_state_say_to_user() {
    let mut state = ServerState::new();
    let (sender_kelsey, mut receiver_kelsey) = mpsc::unbounded_channel();
    assert!(state
        .add_user("@kelsey".to_string(), User::new(sender_kelsey))
        .is_ok());
    let (sender_robert, _receiver_robert) = mpsc::unbounded_channel();
    assert!(state
        .add_user("@robert".to_string(), User::new(sender_robert))
        .is_ok());

    assert_eq!(Err(TryRecvError::Empty), receiver_kelsey.try_recv());

    assert!(state
        .say_to_user("@robert", "@kelsey", "hi there! how are you?".to_string())
        .is_ok());

    assert_eq!(
        Ok(OutgoingMsg::SaidUser(
            "@robert".to_string(),
            "hi there! how are you?".to_string()
        )),
        receiver_kelsey.try_recv()
    );

    assert_eq!(
        state.say_to_user("@robert", "@notreal", "uhoh!!!!??!!".to_string()),
        Err(ServerError::UserUnknown("@notreal".to_string()))
    );
}

#[test]
fn test_server_state_say_to_room() {
    let mut state = ServerState::new();
    let (sender_kelsey, mut receiver_kelsey) = mpsc::unbounded_channel();
    assert!(state
        .add_user("@kelsey".to_string(), User::new(sender_kelsey))
        .is_ok());
    let (sender_robert, mut receiver_robert) = mpsc::unbounded_channel();
    assert!(state
        .add_user("@robert".to_string(), User::new(sender_robert))
        .is_ok());
    let (sender_dave, mut receiver_dave) = mpsc::unbounded_channel();
    assert!(state
        .add_user("@dave".to_string(), User::new(sender_dave))
        .is_ok());

    assert!(state
        .join_room("#testroom".to_string(), "@kelsey".to_string())
        .is_ok());
    assert!(state
        .join_room("#testroom".to_string(), "@robert".to_string())
        .is_ok());
    assert!(state
        .join_room("#testroom".to_string(), "@dave".to_string())
        .is_ok());

    assert!(state
        .say_to_room("@dave", "#testroom", "hello my room friends!".to_string())
        .is_ok());

    // dont send room message to self
    assert_eq!(Err(TryRecvError::Empty), receiver_dave.try_recv());
    assert_eq!(
        Ok(OutgoingMsg::SaidRoom(
            "#testroom".to_string(),
            "@dave".to_string(),
            "hello my room friends!".to_string()
        )),
        receiver_kelsey.try_recv()
    );
    assert_eq!(
        Ok(OutgoingMsg::SaidRoom(
            "#testroom".to_string(),
            "@dave".to_string(),
            "hello my room friends!".to_string()
        )),
        receiver_robert.try_recv()
    );

    assert_eq!(
        state.say_to_room("@dave", "#notreal", "hello my room friends!".to_string()),
        Err(ServerError::RoomUnknown("#notreal".to_string()))
    );
}

#[test]
fn test_membership_is_bidirectional() {
    // the user-side and room-side records always agree
    let mut state = ServerState::new();
    let (sender, _r1) = mpsc::unbounded_channel();
    assert!(state.add_user("@ada".to_string(), User::new(sender)).is_ok());
    let (sender, _r2) = mpsc::unbounded_channel();
    assert!(state.add_user("@bob".to_string(), User::new(sender)).is_ok());
    assert!(state.join_room("#gen".to_string(), "@ada".to_string()).is_ok());
    assert!(state.join_room("#gen".to_string(), "@bob".to_string()).is_ok());
    assert!(state.join_room("#ops".to_string(), "@ada".to_string()).is_ok());

    for user in ["@ada", "@bob"] {
        for room in ["#gen", "#ops"] {
            assert_eq!(
                state.user_has_room(user, room),
                state.room_has_user(room, user)
            );
        }
    }
    assert!(state.leave_room("#gen", "@ada").is_ok());
    for user in ["@ada", "@bob"] {
        for room in ["#gen", "#ops"] {
            assert_eq!(
                state.user_has_room(user, room),
                state.room_has_user(room, user)
            );
        }
    }
}

#[test]
fn test_no_empty_rooms_after_cascade() {
    // a room whose only member is removed disappears; shared rooms survive
    let mut state = ServerState::new();
    let (sender, _r1) = mpsc::unbounded_channel();
    assert!(state.add_user("@ada".to_string(), User::new(sender)).is_ok());
    let (sender, _r2) = mpsc::unbounded_channel();
    assert!(state.add_user("@bob".to_string(), User::new(sender)).is_ok());
    assert!(state.join_room("#solo".to_string(), "@ada".to_string()).is_ok());
    assert!(state.join_room("#both".to_string(), "@ada".to_string()).is_ok());
    assert!(state.join_room("#both".to_string(), "@bob".to_string()).is_ok());

    assert!(state.remove_user("@ada").is_ok());
    assert!(!state.contains_room("#solo"));
    assert!(state.contains_room("#both"));
    assert_eq!(state.users("#both"), Ok(vec!["@bob".to_string()]));
    assert!(!state.room_has_user("#both", "@ada"));
}

#[test]
fn test_rename_preserves_rooms() {
    // after a rename the new name holds exactly the old name's rooms
    let mut state = ServerState::new();
    let (sender, _r1) = mpsc::unbounded_channel();
    assert!(state.add_user("@ada".to_string(), User::new(sender)).is_ok());
    let (sender, _r2) = mpsc::unbounded_channel();
    assert!(state.add_user("@bob".to_string(), User::new(sender)).is_ok());
    assert!(state.join_room("#gen".to_string(), "@ada".to_string()).is_ok());
    assert!(state.join_room("#gen".to_string(), "@bob".to_string()).is_ok());

    // renaming onto a taken name fails and changes nothing
    assert_eq!(
        state.rename_user("@ada", "@bob"),
        Err(ServerError::UserAlreadyExists("@bob".to_string()))
    );
    assert!(state.user_has_room("@ada", "#gen"));

    assert!(state.rename_user("@ada", "@countess").is_ok());
    assert!(!state.contains_user("@ada"));
    assert!(state.contains_user("@countess"));
    assert!(state.user_has_room("@countess", "#gen"));
    assert!(state.room_has_user("#gen", "@countess"));
    assert!(!state.room_has_user("#gen", "@ada"));
    assert!(state.room_has_user("#gen", "@bob"));
}

#[test]
fn test_say_to_self_is_allowed() {
    // a private message to oneself is delivered, unlike room fan-out
    let mut state = ServerState::new();
    let (sender, mut receiver) = mpsc::unbounded_channel();
    assert!(state.add_user("@ada".to_string(), User::new(sender)).is_ok());
    assert!(state
        .say_to_user("@ada", "@ada", "note to self".to_string())
        .is_ok());
    assert_eq!(
        Ok(OutgoingMsg::SaidUser(
            "@ada".to_string(),
            "note to self".to_string()
        )),
        receiver.try_recv()
    );
}

#[test]
fn test_closed_mailbox_is_discarded() {
    // enqueueing to a torn-down connection is silently dropped
    let mut state = ServerState::new();
    let (sender, receiver) = mpsc::unbounded_channel();
    assert!(state.add_user("@ada".to_string(), User::new(sender)).is_ok());
    drop(receiver);
    assert!(state
        .say_to_user("@bob", "@ada", "anyone there?".to_string())
        .is_ok());
}
