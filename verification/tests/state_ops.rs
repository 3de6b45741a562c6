use discord_server::error::{ErrorCode, ErrorReason, StateError};
use discord_server::state::{
    channel_exists, channel_name_is_valid, create_user, get_channels, get_messages, get_users,
    join_channel, leave_channel, list_channel_users, send_message, user_exists, AppState, Message,
};

fn s(x: &str) -> String {
    x.to_string()
}

fn error(code: ErrorCode, reason: ErrorReason) -> StateError {
    StateError { code, reason }
}

fn sorted(mut v: Vec<String>) -> Vec<String> {
    v.sort();
    v
}

fn with_users(names: &[&str]) -> AppState {
    let mut st = AppState::new();
    for n in names {
        create_user(&mut st, s(n)).unwrap();
    }
    st
}

#[test]
fn new_state_is_empty() {
    let st = AppState::new();
    assert!(get_users(&st).is_empty());
    assert!(get_channels(&st).is_empty());
    assert!(!user_exists(&st, "alice"));
    assert!(!channel_exists(&st, "#general"));
}

#[test]
fn message_new_keeps_fields() {
    let m = Message::new(s("alice"), s("hi"), 7);
    assert_eq!(m.username, "alice");
    assert_eq!(m.text, "hi");
    assert_eq!(m.message_id, 7);
    let c = m.clone();
    assert_eq!(c.username, "alice");
    assert_eq!(c.text, "hi");
    assert_eq!(c.message_id, 7);
}

#[test]
fn create_user_then_exists() {
    let mut st = AppState::new();
    assert_eq!(create_user(&mut st, s("alice")), Ok(s("alice")));
    assert!(user_exists(&st, "alice"));
    assert!(!user_exists(&st, "bob"));
    assert_eq!(get_users(&st), vec![s("alice")]);
}

#[test]
fn create_user_twice_is_refused() {
    let mut st = with_users(&["alice"]);
    assert_eq!(
        create_user(&mut st, s("alice")),
        Err(error(ErrorCode::BadRequest, ErrorReason::UserAlreadyExists))
    );
    assert_eq!(get_users(&st), vec![s("alice")]);
}

#[test]
fn get_users_lists_each_once() {
    let st = with_users(&["carol", "alice", "bob"]);
    assert_eq!(sorted(get_users(&st)), vec![s("alice"), s("bob"), s("carol")]);
}

#[test]
fn channel_names_must_start_with_hash() {
    assert!(channel_name_is_valid("#general"));
    assert!(channel_name_is_valid("#"));
    assert!(!channel_name_is_valid("general"));
    assert!(!channel_name_is_valid(""));
    assert!(!channel_name_is_valid(" #x"));
}

#[test]
fn join_creates_channel() {
    let mut st = with_users(&["alice"]);
    assert_eq!(join_channel(&mut st, s("alice"), s("#general")), Ok(()));
    assert!(channel_exists(&st, "#general"));
    assert_eq!(get_channels(&st), vec![s("#general")]);
    assert_eq!(list_channel_users(&st, s("#general")), Ok(vec![s("alice")]));
}

#[test]
fn join_errors() {
    let mut st = with_users(&["alice"]);
    assert_eq!(
        join_channel(&mut st, s("bob"), s("#general")),
        Err(error(ErrorCode::BadRequest, ErrorReason::UserDoesNotExist))
    );
    assert_eq!(
        join_channel(&mut st, s("alice"), s("general")),
        Err(error(ErrorCode::BadRequest, ErrorReason::InvalidChannelName))
    );
    assert!(get_channels(&st).is_empty());
    join_channel(&mut st, s("alice"), s("#general")).unwrap();
    assert_eq!(
        join_channel(&mut st, s("alice"), s("#general")),
        Err(error(ErrorCode::BadRequest, ErrorReason::UserAlreadyInChannel))
    );
}

#[test]
fn list_channel_users_errors() {
    let st = with_users(&["alice"]);
    assert_eq!(
        list_channel_users(&st, s("general")),
        Err(error(ErrorCode::BadRequest, ErrorReason::InvalidChannelName))
    );
    assert_eq!(
        list_channel_users(&st, s("#nowhere")),
        Err(error(ErrorCode::NotFound, ErrorReason::ChannelDoesNotExist))
    );
}

#[test]
fn list_channel_users_lists_members() {
    let mut st = with_users(&["alice", "bob", "carol"]);
    join_channel(&mut st, s("bob"), s("#a")).unwrap();
    join_channel(&mut st, s("alice"), s("#a")).unwrap();
    join_channel(&mut st, s("carol"), s("#b")).unwrap();
    assert_eq!(sorted(list_channel_users(&st, s("#a")).unwrap()), vec![s("alice"), s("bob")]);
    assert_eq!(list_channel_users(&st, s("#b")).unwrap(), vec![s("carol")]);
    assert_eq!(sorted(get_channels(&st)), vec![s("#a"), s("#b")]);
}

#[test]
fn leave_channel_errors() {
    let mut st = with_users(&["alice", "bob"]);
    join_channel(&mut st, s("alice"), s("#general")).unwrap();
    assert_eq!(
        leave_channel(&mut st, s("alice"), s("general")),
        Err(error(ErrorCode::BadRequest, ErrorReason::InvalidChannelName))
    );
    assert_eq!(
        leave_channel(&mut st, s("alice"), s("#other")),
        Err(error(ErrorCode::NotFound, ErrorReason::ChannelDoesNotExist))
    );
    assert_eq!(
        leave_channel(&mut st, s("zed"), s("#general")),
        Err(error(ErrorCode::NotFound, ErrorReason::UserDoesNotExist))
    );
    assert_eq!(
        leave_channel(&mut st, s("bob"), s("#general")),
        Err(error(ErrorCode::BadRequest, ErrorReason::UserNotInChannel))
    );
}

#[test]
fn leave_undoes_join() {
    let mut st = with_users(&["alice", "bob"]);
    join_channel(&mut st, s("alice"), s("#general")).unwrap();
    join_channel(&mut st, s("bob"), s("#general")).unwrap();
    assert_eq!(leave_channel(&mut st, s("bob"), s("#general")), Ok(()));
    assert_eq!(list_channel_users(&st, s("#general")), Ok(vec![s("alice")]));
    assert_eq!(leave_channel(&mut st, s("alice"), s("#general")), Ok(()));
    // the channel stays, empty
    assert!(channel_exists(&st, "#general"));
    assert_eq!(list_channel_users(&st, s("#general")), Ok(vec![]));
    // and can be joined again
    assert_eq!(join_channel(&mut st, s("alice"), s("#general")), Ok(()));
}

#[test]
fn send_message_errors() {
    let mut st = with_users(&["alice", "bob"]);
    join_channel(&mut st, s("alice"), s("#general")).unwrap();
    assert_eq!(
        send_message(&mut st, s("general"), s("alice"), s("hi")),
        Err(error(ErrorCode::BadRequest, ErrorReason::InvalidChannelName))
    );
    assert_eq!(
        send_message(&mut st, s("#other"), s("alice"), s("hi")),
        Err(error(ErrorCode::NotFound, ErrorReason::ChannelDoesNotExist))
    );
    assert_eq!(
        send_message(&mut st, s("#general"), s("zed"), s("hi")),
        Err(error(ErrorCode::NotFound, ErrorReason::UserDoesNotExist))
    );
    assert_eq!(
        send_message(&mut st, s("#general"), s("bob"), s("hi")),
        Err(error(ErrorCode::BadRequest, ErrorReason::UserNotInChannel))
    );
    // refused sends use up no id
    assert_eq!(send_message(&mut st, s("#general"), s("alice"), s("hi")), Ok(0));
}

#[test]
fn message_ids_increase_across_channels() {
    let mut st = with_users(&["alice"]);
    join_channel(&mut st, s("alice"), s("#a")).unwrap();
    join_channel(&mut st, s("alice"), s("#b")).unwrap();
    assert_eq!(send_message(&mut st, s("#a"), s("alice"), s("one")), Ok(0));
    assert_eq!(send_message(&mut st, s("#b"), s("alice"), s("two")), Ok(1));
    assert_eq!(send_message(&mut st, s("#a"), s("alice"), s("three")), Ok(2));
}

fn texts(v: &[Message]) -> Vec<String> {
    v.iter().map(|m| m.text.clone()).collect()
}

#[test]
fn send_then_get_newest_first() {
    let mut st = with_users(&["alice"]);
    join_channel(&mut st, s("alice"), s("#a")).unwrap();
    send_message(&mut st, s("#a"), s("alice"), s("one")).unwrap();
    send_message(&mut st, s("#a"), s("alice"), s("two")).unwrap();
    let page = get_messages(&st, s("#a"), None, None).unwrap();
    assert_eq!(texts(&page), vec![s("two"), s("one")]);
    assert_eq!(page[0].message_id, 1);
    assert_eq!(page[0].username, "alice");
    assert_eq!(page[1].message_id, 0);
}

#[test]
fn get_messages_limit_and_offset() {
    let mut st = with_users(&["alice"]);
    join_channel(&mut st, s("alice"), s("#a")).unwrap();
    for i in 0..30 {
        send_message(&mut st, s("#a"), s("alice"), format!("m{}", i)).unwrap();
    }
    let page = get_messages(&st, s("#a"), None, None).unwrap();
    assert_eq!(page.len(), 20);
    assert_eq!(page[0].text, "m29");
    assert_eq!(page[19].text, "m10");
    let page = get_messages(&st, s("#a"), Some(3), Some(2)).unwrap();
    assert_eq!(texts(&page), vec![s("m27"), s("m26"), s("m25")]);
    let page = get_messages(&st, s("#a"), Some(5), Some(28)).unwrap();
    assert_eq!(texts(&page), vec![s("m1"), s("m0")]);
    let page = get_messages(&st, s("#a"), None, Some(30)).unwrap();
    assert!(page.is_empty());
    let page = get_messages(&st, s("#a"), Some(0), None).unwrap();
    assert!(page.is_empty());
    let page = get_messages(&st, s("#a"), Some(usize::MAX), Some(usize::MAX)).unwrap();
    assert!(page.is_empty());
    let page = get_messages(&st, s("#a"), Some(usize::MAX), Some(25)).unwrap();
    assert_eq!(page.len(), 5);
}

#[test]
fn get_messages_errors() {
    let st = with_users(&["alice"]);
    assert_eq!(
        get_messages(&st, s("a"), None, None).err(),
        Some(error(ErrorCode::BadRequest, ErrorReason::InvalidChannelName))
    );
    assert_eq!(
        get_messages(&st, s("#a"), None, None).err(),
        Some(error(ErrorCode::NotFound, ErrorReason::ChannelDoesNotExist))
    );
}

#[test]
fn empty_channel_has_no_messages() {
    let mut st = with_users(&["alice"]);
    join_channel(&mut st, s("alice"), s("#a")).unwrap();
    assert!(get_messages(&st, s("#a"), None, None).unwrap().is_empty());
}

#[test]
fn check_member_makes_the_posting_checks() {
    let mut st = with_users(&["alice", "bob"]);
    join_channel(&mut st, s("alice"), s("#a")).unwrap();
    assert_eq!(st.check_member(&s("#a"), &s("alice")), Ok(()));
    assert_eq!(
        st.check_member(&s("a"), &s("alice")),
        Err(error(ErrorCode::BadRequest, ErrorReason::InvalidChannelName))
    );
    assert_eq!(
        st.check_member(&s("#b"), &s("alice")),
        Err(error(ErrorCode::NotFound, ErrorReason::ChannelDoesNotExist))
    );
    assert_eq!(
        st.check_member(&s("#a"), &s("zed")),
        Err(error(ErrorCode::NotFound, ErrorReason::UserDoesNotExist))
    );
    assert_eq!(
        st.check_member(&s("#a"), &s("bob")),
        Err(error(ErrorCode::BadRequest, ErrorReason::UserNotInChannel))
    );
    assert_eq!(st.next_message_id(), 0);
    send_message(&mut st, s("#a"), s("alice"), s("hi")).unwrap();
    assert_eq!(st.next_message_id(), 1);
}
