use discord_server::error::{ErrorCode, ErrorReason, StateError};
use discord_server::session::{
    handle_line, handle_login, handle_logout, handle_register, LineBuffer, Operation, Reply,
    Session, SocketOperation,
};
use discord_server::state::{create_user, user_exists, AppState};

fn error(code: ErrorCode, reason: ErrorReason) -> StateError {
    StateError { code, reason }
}

fn ok_reply(r: Result<Reply, StateError>) -> (Operation, String) {
    let reply = r.unwrap();
    (reply.operation, reply.username)
}

fn send(op: SocketOperation) -> Result<Reply, StateError> {
    match op {
        SocketOperation::Send(r) => r,
        SocketOperation::Close => panic!("expected a reply"),
    }
}

#[test]
fn register_command() {
    let mut st = AppState::new();
    assert_eq!(
        ok_reply(handle_register(&mut st, "REGISTER alice")),
        (Operation::Register, "alice".to_string())
    );
    assert!(user_exists(&st, "alice"));
    assert_eq!(
        handle_register(&mut st, "REGISTER alice").err(),
        Some(error(ErrorCode::BadRequest, ErrorReason::UserAlreadyExists))
    );
    assert_eq!(
        handle_register(&mut st, "REGISTER").err(),
        Some(error(ErrorCode::BadRequest, ErrorReason::InvalidRegisterCommand))
    );
    assert_eq!(
        handle_register(&mut st, "REGISTER a b").err(),
        Some(error(ErrorCode::BadRequest, ErrorReason::InvalidRegisterCommand))
    );
}

#[test]
fn login_and_logout_commands() {
    let mut st = AppState::new();
    create_user(&mut st, "alice".to_string()).unwrap();
    let mut session = Session::new();
    assert!(session.user().is_none());
    assert_eq!(
        handle_logout(&mut session, "LOGOUT").err(),
        Some(error(ErrorCode::BadRequest, ErrorReason::NotLoggedIn))
    );
    assert_eq!(
        handle_login(&mut session, &st, "LOGIN bob").err(),
        Some(error(ErrorCode::BadRequest, ErrorReason::UserDoesNotExist))
    );
    assert_eq!(
        handle_login(&mut session, &st, "LOGIN").err(),
        Some(error(ErrorCode::BadRequest, ErrorReason::InvalidLoginCommand))
    );
    assert_eq!(
        ok_reply(handle_login(&mut session, &st, "LOGIN alice")),
        (Operation::Login, "alice".to_string())
    );
    assert_eq!(session.user().map(|u| u.as_str()), Some("alice"));
    assert_eq!(
        handle_login(&mut session, &st, "LOGIN alice").err(),
        Some(error(ErrorCode::BadRequest, ErrorReason::AlreadyLoggedIn))
    );
    assert_eq!(
        handle_logout(&mut session, "LOGOUT now").err(),
        Some(error(ErrorCode::BadRequest, ErrorReason::InvalidLogoutCommand))
    );
    assert_eq!(
        ok_reply(handle_logout(&mut session, "LOGOUT")),
        (Operation::Logout, "alice".to_string())
    );
    assert!(session.user().is_none());
}

#[test]
fn lines_are_trimmed_and_dispatched() {
    let mut st = AppState::new();
    let mut session = Session::new();
    assert_eq!(
        ok_reply(send(handle_line(&mut session, &mut st, "  REGISTER alice \r"))),
        (Operation::Register, "alice".to_string())
    );
    assert_eq!(
        ok_reply(send(handle_line(&mut session, &mut st, "LOGIN alice"))),
        (Operation::Login, "alice".to_string())
    );
    assert_eq!(
        ok_reply(send(handle_line(&mut session, &mut st, "\tLOGOUT"))),
        (Operation::Logout, "alice".to_string())
    );
    assert_eq!(
        send(handle_line(&mut session, &mut st, "HELLO")).err(),
        Some(error(ErrorCode::BadRequest, ErrorReason::UnknownCommand))
    );
    assert_eq!(
        send(handle_line(&mut session, &mut st, "register bob")).err(),
        Some(error(ErrorCode::BadRequest, ErrorReason::UnknownCommand))
    );
    assert!(matches!(handle_line(&mut session, &mut st, "QUIT"), SocketOperation::Close));
    assert!(matches!(handle_line(&mut session, &mut st, " QUITTING"), SocketOperation::Close));
}

#[test]
fn prefix_dispatch_accepts_longer_words() {
    // dispatch goes by prefix: the first word only has to start with the command
    let mut st = AppState::new();
    let mut session = Session::new();
    assert_eq!(
        ok_reply(send(handle_line(&mut session, &mut st, "REGISTERME bob"))),
        (Operation::Register, "bob".to_string())
    );
    assert!(user_exists(&st, "bob"));
}

#[test]
fn line_buffer_frames_lines() {
    let mut buf = LineBuffer::new();
    assert!(buf.next_line().is_none());
    buf.push_str("REGISTER al");
    assert!(buf.next_line().is_none());
    buf.push_str("ice\nLOGIN alice\nQU");
    assert_eq!(buf.next_line(), Some("REGISTER alice".to_string()));
    assert_eq!(buf.next_line(), Some("LOGIN alice".to_string()));
    assert!(buf.next_line().is_none());
    buf.push_str("IT\n\n");
    assert_eq!(buf.next_line(), Some("QUIT".to_string()));
    assert_eq!(buf.next_line(), Some("".to_string()));
    assert!(buf.next_line().is_none());
}

#[test]
fn error_codes_and_texts() {
    let e = error(ErrorCode::BadRequest, ErrorReason::UserAlreadyExists);
    assert_eq!(e.status(), 400);
    assert_eq!(e.message(), "User already exists");
    let e = error(ErrorCode::NotFound, ErrorReason::ChannelDoesNotExist);
    assert_eq!(e.status(), 404);
    assert_eq!(e.message(), "Channel does not exist");
    assert_eq!(ErrorReason::InvalidChannelName.message(), "Channel must start with #");
    assert_eq!(
        ErrorReason::InvalidRegisterCommand.message(),
        "Invalid register command; expected `REGISTER <username>`"
    );
    assert_eq!(
        ErrorReason::InvalidLoginCommand.message(),
        "Invalid login command; expected `LOGIN <username>`"
    );
    assert_eq!(ErrorReason::InvalidLogoutCommand.message(), "Invalid logout command; expected `LOGOUT`");
    assert_eq!(ErrorReason::NotLoggedIn.message(), "User is not logged in");
    assert_eq!(ErrorReason::AlreadyLoggedIn.message(), "Already logged in");
    assert_eq!(ErrorReason::UnknownCommand.message(), "Unknown command");
    assert_eq!(ErrorReason::UserDoesNotExist.message(), "User does not exist");
    assert_eq!(ErrorReason::UserAlreadyInChannel.message(), "User already in channel");
    assert_eq!(ErrorReason::UserNotInChannel.message(), "User not in channel");
    assert_eq!(Operation::Register.name(), "register");
    assert_eq!(Operation::Login.name(), "login");
    assert_eq!(Operation::Logout.name(), "logout");
}
