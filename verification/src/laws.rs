//! Properties of the chat service as a whole, proved over the model that the
//! requests' contracts speak of.

use vstd::prelude::*;

use crate::error::{err, spec_code_number, ErrorCode, ErrorReason, StateError};
use crate::model::{
    channel_name_valid, message_page, AppStateView, ChannelView, MessageView, DEFAULT_LIMIT,
};
use crate::session::{
    line_step, login_step, logout_step, register_step, Operation, ReplyView, SocketOperationView,
};
use crate::text::{
    is_first_index_of, is_white_space, join_pieces, lemma_split_on_pair, lemma_split_on_rejoins,
    lemma_split_on_whole, lemma_trim_end_cut, lemma_trim_start_cut, split_on, trimmed,
};

verus! {

/// A refused request leaves the chat state as it was.
pub proof fn law_refused_requests_change_nothing(
    s: AppStateView,
    username: Seq<char>,
    name: Seq<char>,
    text: Seq<char>,
)
    ensures
        s.create_user_step(username).0 is Err ==> s.create_user_step(username).1 == s,
        s.join_channel_step(username, name).0 is Err ==> s.join_channel_step(username, name).1
            == s,
        s.leave_channel_step(username, name).0 is Err ==> s.leave_channel_step(username, name).1
            == s,
        s.send_message_step(name, username, text).0 is Err ==> s.send_message_step(
            name,
            username,
            text,
        ).1 == s,
{
}

/// Once registered, a user exists, and registering the name again is refused.
pub proof fn law_registered_user_exists(s: AppStateView, username: Seq<char>)
    ensures
        s.create_user_step(username).1.users.contains(username),
        s.create_user_step(username).1.create_user_step(username) == (
            Err::<Seq<char>, StateError>(
                err(ErrorCode::BadRequest, ErrorReason::UserAlreadyExists),
            ),
            s.create_user_step(username).1,
        ),
{
}

/// Registering is refused exactly for names already taken, and a successful
/// registration gives back the registered name.
pub proof fn law_register_ok_iff_new(s: AppStateView, username: Seq<char>)
    ensures
        s.create_user_step(username).0 is Ok <==> !s.users.contains(username),
        s.create_user_step(username).0 is Ok ==> s.create_user_step(username).0
            == Ok::<Seq<char>, StateError>(username),
{
}

/// After a user joins a channel, the channel exists and lists the user.
pub proof fn law_join_then_list(s: AppStateView, username: Seq<char>, name: Seq<char>)
    requires
        s.join_channel_step(username, name).0 is Ok,
    ensures
        s.join_channel_step(username, name).1.list_channel_users_result(name) is Ok,
        s.join_channel_step(username, name).1.list_channel_users_result(name)->Ok_0.contains(
            username,
        ),
{
}

/// A registered user can join any validly named channel that they are not
/// yet in; joining creates the channel where needed.
pub proof fn law_join_ok_iff(s: AppStateView, username: Seq<char>, name: Seq<char>)
    ensures
        s.join_channel_step(username, name).0 is Ok <==> (s.users.contains(username)
            && channel_name_valid(name) && !(s.channels.contains_key(name)
            && s.channels[name].users.contains(username))),
{
}

/// Leaving a channel undoes joining it: the state is back to what it was,
/// except that a channel that the join created stays, empty of users.
pub proof fn law_leave_undoes_join(s: AppStateView, username: Seq<char>, name: Seq<char>)
    requires
        s.join_channel_step(username, name).0 is Ok,
    ensures
        s.join_channel_step(username, name).1.leave_channel_step(username, name).0 is Ok,
        s.join_channel_step(username, name).1.leave_channel_step(username, name).1 == (if s.channels.contains_key(name) {
            s
        } else {
            s.with_channel(name, ChannelView::empty())
        }),
{
    let t = s.join_channel_step(username, name).1;
    let u = t.leave_channel_step(username, name).1;
    if s.channels.contains_key(name) {
        let ch = s.channels[name];
        assert(ch.users.insert(username).remove(username) =~= ch.users);
        assert(u.channels =~= s.channels);
    } else {
        assert(Set::<Seq<char>>::empty().insert(username).remove(username) =~= Set::empty());
        assert(u.channels =~= s.with_channel(name, ChannelView::empty()).channels);
    }
}

/// A posted message gets the next id, and it is the first message of the
/// next default listing of its channel.
pub proof fn law_send_then_get(s: AppStateView, name: Seq<char>, username: Seq<char>, text: Seq<char>)
    requires
        s.send_message_step(name, username, text).0 is Ok,
    ensures
        s.send_message_step(name, username, text).0 == Ok::<usize, StateError>(s.next_message_id),
        s.send_message_step(name, username, text).1.get_messages_result(name, None, None) is Ok,
        s.send_message_step(name, username, text).1.get_messages_result(
            name,
            None,
            None,
        )->Ok_0[0] == (MessageView { username, text, message_id: s.next_message_id }),
{
    let t = s.send_message_step(name, username, text).1;
    let msgs = t.channels[name].messages;
    assert(msgs.reverse()[0] == msgs.last());
}

/// Successive posts get increasing ids, wherever they are posted.
pub proof fn law_ids_increase(
    s: AppStateView,
    name1: Seq<char>,
    user1: Seq<char>,
    text1: Seq<char>,
    name2: Seq<char>,
    user2: Seq<char>,
    text2: Seq<char>,
)
    requires
        s.next_message_id < usize::MAX,
        s.send_message_step(name1, user1, text1).0 is Ok,
        s.send_message_step(name1, user1, text1).1.send_message_step(name2, user2, text2).0 is Ok,
    ensures
        s.send_message_step(name1, user1, text1).0->Ok_0 < s.send_message_step(
            name1,
            user1,
            text1,
        ).1.send_message_step(name2, user2, text2).0->Ok_0,
{
}

/// A listing is a run of the channel's messages, newest first: the `k`th
/// entry is the message `offset + k` places back from the newest, and there
/// are `limit` entries, or fewer where the channel runs out.
pub proof fn law_page_is_newest_first(messages: Seq<MessageView>, limit: nat, offset: nat)
    ensures
        message_page(messages, limit, offset).len() == (if offset >= messages.len() {
            0
        } else if offset + limit >= messages.len() {
            messages.len() - offset
        } else {
            limit as int
        }),
        forall|k: int|
            0 <= k < message_page(messages, limit, offset).len() ==> #[trigger] message_page(
                messages,
                limit,
                offset,
            )[k] == messages[messages.len() - 1 - offset - k],
{
}

/// The default listing holds the newest twenty messages, or all of them
/// where there are fewer.
pub proof fn law_default_page_size(s: AppStateView, name: Seq<char>)
    requires
        s.channels.contains_key(name),
        channel_name_valid(name),
    ensures
        s.get_messages_result(name, None, None) is Ok,
        s.get_messages_result(name, None, None)->Ok_0.len() == if s.channels[name].messages.len()
            < DEFAULT_LIMIT {
            s.channels[name].messages.len() as int
        } else {
            DEFAULT_LIMIT as int
        },
{
}

/// Logging in and then out leaves the connection logged out, and both
/// replies name the same user.
pub proof fn law_logout_undoes_login(s: AppStateView, login: Seq<char>, logout: Seq<char>)
    requires
        login_step(None, s, login).0 is Ok,
        split_on(logout, ' ').len() == 1,
    ensures
        logout_step(login_step(None, s, login).1, logout).1 == None::<Seq<char>>,
        logout_step(login_step(None, s, login).1, logout).0 == Ok::<ReplyView, StateError>(
            ReplyView {
                operation: Operation::Logout,
                username: login_step(None, s, login).0->Ok_0.username,
            },
        ),
{
}

/// A connection cannot log in twice without logging out in between.
pub proof fn law_no_double_login(user: Seq<char>, s: AppStateView, line: Seq<char>)
    ensures
        login_step(Some(user), s, line) == (
            Err::<ReplyView, StateError>(err(ErrorCode::BadRequest, ErrorReason::AlreadyLoggedIn)),
            Some(user),
        ),
{
}

/// A line ends at the first `\n`: text that holds no `\n`, followed by a
/// `\n` and anything, has its first `\n` right after that text.
pub proof fn law_line_ends_at_first_newline(line: Seq<char>, rest: Seq<char>)
    requires
        !line.contains('\n'),
    ensures
        is_first_index_of(line + seq!['\n'] + rest, '\n', line.len() as int),
        (line + seq!['\n'] + rest).subrange(0, line.len() as int) == line,
        (line + seq!['\n'] + rest).subrange(line.len() + 1int, (line + seq!['\n'] + rest).len() as int)
            == rest,
{
    let whole = line + seq!['\n'] + rest;
    assert forall|j: int| 0 <= j < line.len() implies whole[j] != '\n' by {
        assert(whole[j] == line[j]);
    }
    assert(whole.subrange(0, line.len() as int) =~= line);
    assert(whole.subrange(line.len() + 1int, whole.len() as int) =~= rest);
}

/// A successful registration adds exactly the new name to the users and
/// touches nothing else: every channel, with its members and messages, and
/// the next message id stay as they were.
pub proof fn law_register_changes_only_users(s: AppStateView, username: Seq<char>)
    requires
        !s.users.contains(username),
    ensures
        s.create_user_step(username).0 == Ok::<Seq<char>, StateError>(username),
        s.create_user_step(username).1.users == s.users.insert(username),
        s.create_user_step(username).1.channels == s.channels,
        s.create_user_step(username).1.next_message_id == s.next_message_id,
{
}

/// A successful join adds the user to that channel's members (an empty
/// channel where it did not exist yet) and touches nothing else: the users,
/// the channel's messages, every other channel and the next id stay as they were.
pub proof fn law_join_changes_only_that_channel(s: AppStateView, username: Seq<char>, name: Seq<char>)
    requires
        s.join_channel_step(username, name).0 is Ok,
    ensures
        s.join_channel_step(username, name).1.users == s.users,
        s.join_channel_step(username, name).1.next_message_id == s.next_message_id,
        s.join_channel_step(username, name).1.channels.dom() == s.channels.dom().insert(name),
        s.join_channel_step(username, name).1.channels[name].users == (if s.channels.contains_key(
            name,
        ) {
            s.channels[name].users
        } else {
            Set::empty()
        }).insert(username),
        s.join_channel_step(username, name).1.channels[name].messages == (if s.channels.contains_key(
            name,
        ) {
            s.channels[name].messages
        } else {
            Seq::empty()
        }),
        forall|n: Seq<char>|
            n != name && s.channels.contains_key(n) ==> #[trigger] s.join_channel_step(
                username,
                name,
            ).1.channels[n] == s.channels[n],
{
    let t = s.join_channel_step(username, name).1;
    assert(t.channels.dom() =~= s.channels.dom().insert(name));
}

/// A successful leave removes the user from that channel's members and
/// touches nothing else: the channel stays with its messages, and the users,
/// every other channel and the next id stay as they were.
pub proof fn law_leave_changes_only_that_channel(s: AppStateView, username: Seq<char>, name: Seq<char>)
    requires
        s.leave_channel_step(username, name).0 is Ok,
    ensures
        s.channels.contains_key(name),
        s.channels[name].users.contains(username),
        s.leave_channel_step(username, name).1.users == s.users,
        s.leave_channel_step(username, name).1.next_message_id == s.next_message_id,
        s.leave_channel_step(username, name).1.channels.dom() == s.channels.dom(),
        s.leave_channel_step(username, name).1.channels[name].users == s.channels[name].users.remove(
            username,
        ),
        s.leave_channel_step(username, name).1.channels[name].messages == s.channels[name].messages,
        forall|n: Seq<char>|
            n != name && s.channels.contains_key(n) ==> #[trigger] s.leave_channel_step(
                username,
                name,
            ).1.channels[n] == s.channels[n],
{
    let t = s.leave_channel_step(username, name).1;
    assert(t.channels.dom() =~= s.channels.dom());
}

/// A successful post returns the next id, appends exactly one message (its
/// author, text and that id) to the channel, and counts the id up; it touches
/// nothing else: the users, the channel's members and every other channel stay
/// as they were.
pub proof fn law_send_changes_only_messages(
    s: AppStateView,
    name: Seq<char>,
    username: Seq<char>,
    text: Seq<char>,
)
    requires
        s.send_message_step(name, username, text).0 is Ok,
    ensures
        s.channels.contains_key(name),
        s.channels[name].users.contains(username),
        s.send_message_step(name, username, text).0 == Ok::<usize, StateError>(s.next_message_id),
        s.send_message_step(name, username, text).1.users == s.users,
        s.send_message_step(name, username, text).1.next_message_id == (s.next_message_id
            + 1) as usize,
        s.send_message_step(name, username, text).1.channels.dom() == s.channels.dom(),
        s.send_message_step(name, username, text).1.channels[name].users == s.channels[name].users,
        s.send_message_step(name, username, text).1.channels[name].messages
            == s.channels[name].messages.push(
            MessageView { username, text, message_id: s.next_message_id },
        ),
        forall|n: Seq<char>|
            n != name && s.channels.contains_key(n) ==> #[trigger] s.send_message_step(
                name,
                username,
                text,
            ).1.channels[n] == s.channels[n],
{
    let t = s.send_message_step(name, username, text).1;
    assert(t.channels.dom() =~= s.channels.dom());
}

/// A listing of an existing, validly named channel with `n` messages, for
/// any limit `l` and offset `o`, succeeds with `min(l, n - o)` entries (none
/// when `o >= n`), the `k`th being the message `o + k` places back from the
/// newest. Without a limit, the listing is the one for limit 20; without an
/// offset, the one for offset 0.
pub proof fn law_get_messages_page(s: AppStateView, name: Seq<char>, limit: usize, offset: usize)
    requires
        s.channels.contains_key(name),
        channel_name_valid(name),
    ensures
        s.get_messages_result(name, Some(limit), Some(offset)) is Ok,
        s.get_messages_result(name, Some(limit), Some(offset))->Ok_0.len() == (if offset
            >= s.channels[name].messages.len() {
            0
        } else if limit >= s.channels[name].messages.len() - offset {
            s.channels[name].messages.len() - offset
        } else {
            limit as int
        }),
        forall|k: int|
            0 <= k < s.get_messages_result(name, Some(limit), Some(offset))->Ok_0.len()
                ==> #[trigger] s.get_messages_result(name, Some(limit), Some(offset))->Ok_0[k]
                == s.channels[name].messages[s.channels[name].messages.len() - 1 - offset - k],
        s.get_messages_result(name, None, Some(offset)) == s.get_messages_result(
            name,
            Some(20),
            Some(offset),
        ),
        s.get_messages_result(name, Some(limit), None) == s.get_messages_result(
            name,
            Some(limit),
            Some(0),
        ),
{
}

/// A channel name is valid exactly when it is non-empty and starts with
/// `#`, whatever its other characters; so a registered user who is not yet a
/// member can join any such channel.
pub proof fn law_channel_name_valid_iff_hash(s: AppStateView, username: Seq<char>, name: Seq<char>)
    ensures
        channel_name_valid(name) <==> (name.len() > 0 && name[0] == '#'),
        s.users.contains(username) && name.len() > 0 && name[0] == '#' && !(s.channels.contains_key(
            name,
        ) && s.channels[name].users.contains(username)) ==> s.join_channel_step(username, name).0
            is Ok,
{
}

/// Splitting at `c` loses nothing: the pieces hold no `c`, and joined back
/// together with `c` they give the text again.
pub proof fn law_split_rejoins(s: Seq<char>, c: char)
    ensures
        join_pieces(split_on(s, c), c) == s,
        forall|k: int| 0 <= k < split_on(s, c).len() ==> !(#[trigger] split_on(s, c)[k]).contains(c),
{
    lemma_split_on_rejoins(s, c);
}

/// Trimming removes exactly the white space at both ends: the result is a
/// contiguous part of the text, everything cut off before and after it is
/// white space, and it neither starts nor ends with white space.
pub proof fn law_trim_strips_white_space(s: Seq<char>)
    ensures
        exists|i: int, j: int|
            #![trigger s.subrange(i, j)]
            {
                &&& 0 <= i <= j <= s.len()
                &&& trimmed(s) == s.subrange(i, j)
                &&& forall|k: int| 0 <= k < i ==> is_white_space(#[trigger] s[k])
                &&& forall|k: int| j <= k < s.len() ==> is_white_space(#[trigger] s[k])
                &&& i < j ==> !is_white_space(s[i]) && !is_white_space(s[j - 1])
            },
{
    let i = lemma_trim_start_cut(s);
    let t = s.subrange(i, s.len() as int);
    let j0 = lemma_trim_end_cut(t);
    let j = i + j0;
    assert(t.subrange(0, j0) =~= s.subrange(i, j));
    assert forall|k: int| j <= k < s.len() implies is_white_space(#[trigger] s[k]) by {
        assert(s[k] == t[k - i]);
    }
    if i < j {
        assert(s[j - 1] == t[j0 - 1]);
    }
    assert(s.subrange(i, j) == s.subrange(i, j));
}

/// `REGISTER <name>`, with a name holding no space, registers that name: the
/// reply names it, the state is that of registering it, and a taken name is
/// refused.
pub proof fn law_register_line(s: AppStateView, username: Seq<char>)
    requires
        !username.contains(' '),
    ensures
        register_step(s, "REGISTER"@ + seq![' '] + username).1 == s.create_user_step(username).1,
        register_step(s, "REGISTER"@ + seq![' '] + username).0 == if s.users.contains(username) {
            Err::<ReplyView, StateError>(err(ErrorCode::BadRequest, ErrorReason::UserAlreadyExists))
        } else {
            Ok(ReplyView { operation: Operation::Register, username })
        },
{
    reveal_strlit("REGISTER");
    assert(!"REGISTER"@.contains(' ')) by {
        if "REGISTER"@.contains(' ') {
            let j = choose|j: int| 0 <= j < "REGISTER"@.len() && "REGISTER"@[j] == ' ';
        }
    }
    lemma_split_on_pair("REGISTER"@, username, ' ');
}

/// A command line that holds no space is not a valid `REGISTER`, and
/// changes nothing.
pub proof fn law_register_needs_a_name(s: AppStateView, line: Seq<char>)
    requires
        !line.contains(' '),
    ensures
        register_step(s, line) == (
            Err::<ReplyView, StateError>(
                err(ErrorCode::BadRequest, ErrorReason::InvalidRegisterCommand),
            ),
            s,
        ),
{
    lemma_split_on_whole(line, ' ');
}

/// `LOGIN <name>` on a connection where nobody is logged in logs in as that
/// registered user, and is refused for a name nobody registered.
pub proof fn law_login_line(s: AppStateView, username: Seq<char>)
    requires
        !username.contains(' '),
    ensures
        login_step(None, s, "LOGIN"@ + seq![' '] + username) == if s.users.contains(username) {
            (Ok::<ReplyView, StateError>(ReplyView { operation: Operation::Login, username }), Some(username))
        } else {
            (
                Err::<ReplyView, StateError>(err(ErrorCode::BadRequest, ErrorReason::UserDoesNotExist)),
                None::<Seq<char>>,
            )
        },
{
    reveal_strlit("LOGIN");
    assert(!"LOGIN"@.contains(' ')) by {
        if "LOGIN"@.contains(' ') {
            let j = choose|j: int| 0 <= j < "LOGIN"@.len() && "LOGIN"@[j] == ' ';
        }
    }
    lemma_split_on_pair("LOGIN"@, username, ' ');
}

/// `LOGOUT` (a line with no space) logs out whoever is logged in and names
/// them, and is refused when nobody is; a line with a space is refused and
/// leaves the login as it was.
pub proof fn law_logout_line(user: Option<Seq<char>>, line: Seq<char>)
    ensures
        !line.contains(' ') ==> logout_step(user, line) == match user {
            Some(u) => (
                Ok::<ReplyView, StateError>(ReplyView { operation: Operation::Logout, username: u }),
                None::<Seq<char>>,
            ),
            None => (
                Err::<ReplyView, StateError>(err(ErrorCode::BadRequest, ErrorReason::NotLoggedIn)),
                None::<Seq<char>>,
            ),
        },
        line.contains(' ') ==> logout_step(user, line) == (
            Err::<ReplyView, StateError>(
                err(ErrorCode::BadRequest, ErrorReason::InvalidLogoutCommand),
            ),
            user,
        ),
{
    if !line.contains(' ') {
        lemma_split_on_whole(line, ' ');
    } else {
        lemma_split_on_rejoins(line, ' ');
        if split_on(line, ' ').len() == 1 {
            assert(join_pieces(split_on(line, ' '), ' ') == split_on(line, ' ')[0]);
        }
    }
}

/// The command words, as text: none is a prefix of a line that another,
/// different in its first two letters, is a prefix of.
proof fn lemma_command_words()
    ensures
        "REGISTER"@.len() == 8 && "REGISTER"@[0] == 'R',
        "LOGIN"@.len() == 5 && "LOGIN"@[0] == 'L' && "LOGIN"@[3] == 'I',
        "LOGOUT"@.len() == 6 && "LOGOUT"@[0] == 'L' && "LOGOUT"@[3] == 'O',
        "QUIT"@.len() == 4 && "QUIT"@[0] == 'Q',
{
    reveal_strlit("REGISTER");
    reveal_strlit("LOGIN");
    reveal_strlit("LOGOUT");
    reveal_strlit("QUIT");
}

/// A line that, trimmed, starts with `QUIT` closes the connection, whoever
/// is logged in, and changes neither the login nor the chat state.
pub proof fn law_quit_closes(user: Option<Seq<char>>, s: AppStateView, raw: Seq<char>)
    requires
        "QUIT"@.is_prefix_of(trimmed(raw)),
    ensures
        line_step(user, s, raw) == (SocketOperationView::Close, user, s),
{
    lemma_command_words();
    let line = trimmed(raw);
    assert(line[0] == "QUIT"@[0]);
    if "REGISTER"@.is_prefix_of(line) {
        assert(line[0] == "REGISTER"@[0]);
    }
    if "LOGIN"@.is_prefix_of(line) {
        assert(line[0] == "LOGIN"@[0]);
    }
    if "LOGOUT"@.is_prefix_of(line) {
        assert(line[0] == "LOGOUT"@[0]);
    }
}

/// A line whose trimmed text starts with none of the command words is
/// answered with "Unknown command" and changes nothing.
pub proof fn law_unknown_line(user: Option<Seq<char>>, s: AppStateView, raw: Seq<char>)
    requires
        !"REGISTER"@.is_prefix_of(trimmed(raw)),
        !"LOGIN"@.is_prefix_of(trimmed(raw)),
        !"LOGOUT"@.is_prefix_of(trimmed(raw)),
        !"QUIT"@.is_prefix_of(trimmed(raw)),
    ensures
        line_step(user, s, raw) == (
            SocketOperationView::Send(
                Err(err(ErrorCode::BadRequest, ErrorReason::UnknownCommand)),
            ),
            user,
            s,
        ),
{
}

/// Only `REGISTER` changes the chat state and it leaves the login alone;
/// `LOGIN` and `LOGOUT` change only the login; each answers as its command does.
pub proof fn law_line_dispatch(user: Option<Seq<char>>, s: AppStateView, raw: Seq<char>)
    ensures
        "REGISTER"@.is_prefix_of(trimmed(raw)) ==> line_step(user, s, raw) == (
            SocketOperationView::Send(register_step(s, trimmed(raw)).0),
            user,
            register_step(s, trimmed(raw)).1,
        ),
        "LOGIN"@.is_prefix_of(trimmed(raw)) ==> line_step(user, s, raw) == (
            SocketOperationView::Send(login_step(user, s, trimmed(raw)).0),
            login_step(user, s, trimmed(raw)).1,
            s,
        ),
        "LOGOUT"@.is_prefix_of(trimmed(raw)) ==> line_step(user, s, raw) == (
            SocketOperationView::Send(logout_step(user, trimmed(raw)).0),
            logout_step(user, trimmed(raw)).1,
            s,
        ),
{
    lemma_command_words();
    let line = trimmed(raw);
    if "LOGIN"@.is_prefix_of(line) {
        assert(line[0] == "LOGIN"@[0]);
        if "REGISTER"@.is_prefix_of(line) {
            assert(line[0] == "REGISTER"@[0]);
        }
    }
    if "LOGOUT"@.is_prefix_of(line) {
        assert(line[0] == "LOGOUT"@[0] && line[3] == "LOGOUT"@[3]);
        if "REGISTER"@.is_prefix_of(line) {
            assert(line[0] == "REGISTER"@[0]);
        }
        if "LOGIN"@.is_prefix_of(line) {
            assert(line[3] == "LOGIN"@[3]);
        }
    }
}

/// A bad request is reported with HTTP status 400, a missing channel or
/// user with 404.
pub proof fn law_status_numbers()
    ensures
        spec_code_number(ErrorCode::BadRequest) == 400,
        spec_code_number(ErrorCode::NotFound) == 404,
{
}

} // verus!
