//! The chat state itself: users, channels and their messages, and the
//! requests that read and change them.

use vstd::prelude::*;

use crate::error::{ErrorCode, ErrorReason, StateError, StateResult};
use crate::model::{
    channel_name_valid, lemma_create_user_keeps_inv, lemma_initial_inv,
    lemma_join_channel_keeps_inv, lemma_leave_channel_keeps_inv, lemma_send_message_keeps_inv,
    message_page, AppStateView, ChannelView, MessageView, DEFAULT_LIMIT,
};
use crate::text::chars_of;

verus! {

/// A message posted to a channel.
pub struct Message {
    pub username: String,
    pub text: String,
    pub message_id: usize,
}

impl View for Message {
    type V = MessageView;

    open spec fn view(&self) -> MessageView {
        MessageView { username: self.username@, text: self.text@, message_id: self.message_id }
    }
}

impl Message {
    /// A message of `username` with the given text and id.
    pub fn new(username: String, text: String, message_id: usize) -> (m: Self)
        ensures
            m.username == username,
            m.text == text,
            m.message_id == message_id,
    {
        Self { username, text, message_id }
    }
}

impl Clone for Message {
    fn clone(&self) -> (m: Self)
        ensures
            m@ == self@,
    {
        Message {
            username: self.username.clone(),
            text: self.text.clone(),
            message_id: self.message_id,
        }
    }
}

/// The values of a sequence of messages.
pub open spec fn message_views(v: Seq<Message>) -> Seq<MessageView> {
    v.map_values(|m: Message| m@)
}

/// The set of the texts in a sequence of strings.
pub open spec fn string_set(v: Seq<String>) -> Set<Seq<char>> {
    Set::new(|x: Seq<char>| exists|i: int| 0 <= i < v.len() && #[trigger] v[i]@ == x)
}

/// No text occurs twice in a sequence of strings.
pub open spec fn strings_distinct(v: Seq<String>) -> bool {
    forall|i: int, j: int|
        #![trigger v[i], v[j]]
        0 <= i < v.len() && 0 <= j < v.len() && i != j ==> v[i]@ != v[j]@
}

/// Appending a string adds its text to the set.
pub proof fn lemma_string_set_push(v: Seq<String>, s: String)
    ensures
        string_set(v.push(s)) == string_set(v).insert(s@),
{
    let w = v.push(s);
    assert forall|x: Seq<char>| string_set(w).contains(x) <==> string_set(v).insert(s@).contains(
        x,
    ) by {
        if string_set(v).contains(x) {
            let i = choose|i: int| 0 <= i < v.len() && #[trigger] v[i]@ == x;
            assert(w[i]@ == x);
        }
        if x == s@ {
            assert(w[v.len() as int]@ == x);
        }
        if string_set(w).contains(x) {
            let i = choose|i: int| 0 <= i < w.len() && #[trigger] w[i]@ == x;
            if i < v.len() {
                assert(v[i]@ == x);
            }
        }
    }
    assert(string_set(w) =~= string_set(v).insert(s@));
}

/// Appending a string whose text is new keeps the texts distinct.
pub proof fn lemma_distinct_push(v: Seq<String>, s: String)
    requires
        strings_distinct(v),
        !string_set(v).contains(s@),
    ensures
        strings_distinct(v.push(s)),
{
    let w = v.push(s);
    assert forall|i: int, j: int|
        0 <= i < w.len() && 0 <= j < w.len() && i != j implies #[trigger] w[i]@ != #[trigger] w[j]@ by {
        if i == v.len() {
            assert(v[j]@ == w[j]@);
        } else if j == v.len() {
            assert(v[i]@ == w[i]@);
        } else {
            assert(v[i] == w[i] && v[j] == w[j]);
        }
    }
}

/// Removing the string at `k` from distinct strings removes its text from the set.
pub proof fn lemma_string_set_remove(v: Seq<String>, k: int)
    requires
        strings_distinct(v),
        0 <= k < v.len(),
    ensures
        string_set(v.remove(k)) == string_set(v).remove(v[k]@),
        strings_distinct(v.remove(k)),
{
    let w = v.remove(k);
    assert forall|x: Seq<char>| string_set(w).contains(x) <==> string_set(v).remove(
        v[k]@,
    ).contains(x) by {
        if string_set(w).contains(x) {
            let i = choose|i: int| 0 <= i < w.len() && #[trigger] w[i]@ == x;
            if i < k {
                assert(v[i]@ == x);
                assert(v[i]@ != v[k]@);
            } else {
                assert(v[i + 1]@ == x);
                assert(v[i + 1]@ != v[k]@);
            }
        }
        if string_set(v).remove(v[k]@).contains(x) {
            let i = choose|i: int| 0 <= i < v.len() && #[trigger] v[i]@ == x;
            assert(i != k);
            if i < k {
                assert(w[i]@ == x);
            } else {
                assert(w[i - 1]@ == x);
            }
        }
    }
    assert(string_set(w) =~= string_set(v).remove(v[k]@));
    assert forall|i: int, j: int|
        0 <= i < w.len() && 0 <= j < w.len() && i != j implies #[trigger] w[i]@ != #[trigger] w[j]@ by {
        let i2 = if i < k { i } else { i + 1 };
        let j2 = if j < k { j } else { j + 1 };
        assert(w[i] == v[i2] && w[j] == v[j2]);
    }
}

/// The position of `key`'s text in `v`, if it is there.
fn position_of(v: &Vec<String>, key: &String) -> (r: Option<usize>)
    ensures
        match r {
            Some(i) => i < v@.len() && v@[i as int]@ == key@,
            None => !string_set(v@).contains(key@),
        },
{
    let mut i: usize = 0;
    while i < v.len()
        invariant
            i <= v@.len(),
            forall|j: int| 0 <= j < i ==> v@[j]@ != key@,
        decreases v.len() - i,
    {
        if v[i] == *key {
            return Some(i);
        }
        i = i + 1;
    }
    None
}

/// Copies of the strings, in the same order.
fn copy_strings(v: &Vec<String>) -> (r: Vec<String>)
    ensures
        r@ == v@,
{
    let mut r: Vec<String> = Vec::new();
    let mut i: usize = 0;
    while i < v.len()
        invariant
            i <= v@.len(),
            r@ == v@.subrange(0, i as int),
        decreases v.len() - i,
    {
        r.push(v[i].clone());
        i = i + 1;
    }
    assert(r@ =~= v@);
    r
}

/// A channel: its members and its messages, oldest first.
pub struct Channel {
    users: Vec<String>,
    messages: Vec<Message>,
}

impl View for Channel {
    type V = ChannelView;

    closed spec fn view(&self) -> ChannelView {
        ChannelView { users: string_set(self.users@), messages: message_views(self.messages@) }
    }
}

/// The index of the channel named `name` among `names`.
spec fn name_index(names: Seq<String>, name: Seq<char>) -> int {
    choose|i: int| 0 <= i < names.len() && #[trigger] names[i]@ == name
}

/// The channels by name, from the names and the channels side by side.
spec fn channel_map(names: Seq<String>, chans: Seq<Channel>) -> Map<Seq<char>, ChannelView> {
    Map::new(|n: Seq<char>| string_set(names).contains(n), |n: Seq<char>| chans[name_index(names, n)]@)
}

/// The channel at position `i` is the one the map gives for its name.
proof fn lemma_channel_at(names: Seq<String>, chans: Seq<Channel>, i: int)
    requires
        strings_distinct(names),
        names.len() == chans.len(),
        0 <= i < names.len(),
    ensures
        channel_map(names, chans).contains_key(names[i]@),
        channel_map(names, chans)[names[i]@] == chans[i]@,
{
    assert(string_set(names).contains(names[i]@));
    let j = name_index(names, names[i]@);
    assert(names[j]@ == names[i]@);
}

/// The names of the map are exactly the texts of `names`.
proof fn lemma_channel_map_dom(names: Seq<String>, chans: Seq<Channel>)
    ensures
        channel_map(names, chans).dom() == string_set(names),
{
    assert(channel_map(names, chans).dom() =~= string_set(names));
}

/// Replacing the channel at position `i` replaces the channel of its name.
proof fn lemma_channel_map_update(names: Seq<String>, chans: Seq<Channel>, i: int, c: Channel)
    requires
        strings_distinct(names),
        names.len() == chans.len(),
        0 <= i < names.len(),
    ensures
        channel_map(names, chans.update(i, c)) == channel_map(names, chans).insert(names[i]@, c@),
{
    let chans2 = chans.update(i, c);
    let m1 = channel_map(names, chans2);
    let m2 = channel_map(names, chans).insert(names[i]@, c@);
    lemma_channel_at(names, chans, i);
    lemma_channel_map_dom(names, chans);
    lemma_channel_map_dom(names, chans2);
    assert(m1.dom() =~= m2.dom());
    assert forall|k: Seq<char>| m1.contains_key(k) implies m1[k] == m2[k] by {
        let j = choose|j: int| 0 <= j < names.len() && #[trigger] names[j]@ == k;
        lemma_channel_at(names, chans, j);
        lemma_channel_at(names, chans2, j);
    }
    assert(m1 =~= m2);
}

/// Adding a channel under a new name adds it to the map.
proof fn lemma_channel_map_push(names: Seq<String>, chans: Seq<Channel>, n: String, c: Channel)
    requires
        strings_distinct(names),
        names.len() == chans.len(),
        !string_set(names).contains(n@),
    ensures
        strings_distinct(names.push(n)),
        channel_map(names.push(n), chans.push(c)) == channel_map(names, chans).insert(n@, c@),
{
    let names2 = names.push(n);
    let chans2 = chans.push(c);
    lemma_distinct_push(names, n);
    lemma_string_set_push(names, n);
    let m1 = channel_map(names2, chans2);
    let m2 = channel_map(names, chans).insert(n@, c@);
    lemma_channel_map_dom(names, chans);
    lemma_channel_map_dom(names2, chans2);
    assert(m1.dom() =~= m2.dom());
    assert forall|k: Seq<char>| m1.contains_key(k) implies m1[k] == m2[k] by {
        let j = choose|j: int| 0 <= j < names2.len() && #[trigger] names2[j]@ == k;
        lemma_channel_at(names2, chans2, j);
        if j < names.len() {
            assert(names[j]@ == k);
            lemma_channel_at(names, chans, j);
        }
    }
    assert(m1 =~= m2);
}

/// The whole state of the server.
pub struct AppState {
    users: Vec<String>,
    channel_names: Vec<String>,
    channels: Vec<Channel>,
    next_message_id: usize,
}

impl View for AppState {
    type V = AppStateView;

    closed spec fn view(&self) -> AppStateView {
        AppStateView {
            users: string_set(self.users@),
            channels: channel_map(self.channel_names@, self.channels@),
            next_message_id: self.next_message_id,
        }
    }
}

impl AppState {
    /// The representation is sound: no user or channel name occurs twice, no
    /// member occurs twice in a channel, and the state satisfies the invariant.
    pub closed spec fn wf(&self) -> bool {
        &&& self.channel_names.len() == self.channels.len()
        &&& strings_distinct(self.users@)
        &&& strings_distinct(self.channel_names@)
        &&& forall|i: int|
            0 <= i < self.channels.len() ==> strings_distinct(#[trigger] self.channels@[i].users@)
        &&& self@.inv()
    }

    /// A server with no users and no channels.
    pub fn new() -> (s: Self)
        ensures
            s.wf(),
            s@ == AppStateView::initial(),
    {
        let s = Self {
            users: Vec::new(),
            channel_names: Vec::new(),
            channels: Vec::new(),
            next_message_id: 0,
        };
        assert(string_set(s.users@) =~= Set::empty());
        assert(channel_map(s.channel_names@, s.channels@) =~= Map::empty());
        proof {
            lemma_initial_inv();
        }
        s
    }

    /// The position of the channel named `name`, if there is one.
    fn channel_position(&self, name: &String) -> (r: Option<usize>)
        requires
            self.wf(),
        ensures
            match r {
                Some(i) => {
                    &&& i < self.channels@.len()
                    &&& self.channel_names@[i as int]@ == name@
                    &&& self@.channels.contains_key(name@)
                    &&& self@.channels[name@] == self.channels@[i as int]@
                },
                None => !self@.channels.contains_key(name@),
            },
    {
        proof {
            lemma_channel_map_dom(self.channel_names@, self.channels@);
        }
        let r = position_of(&self.channel_names, name);
        if let Some(i) = r {
            proof {
                lemma_channel_at(self.channel_names@, self.channels@, i as int);
            }
        }
        r
    }

    /// The position of the channel named `name`, after the checks that a
    /// member's request on it makes: the name, the channel, the user, the membership.
    fn member_position(&self, name: &String, username: &String) -> (r: StateResult<usize>)
        requires
            self.wf(),
        ensures
            match r {
                Ok(i) => {
                    &&& i < self.channels@.len()
                    &&& self.channel_names@[i as int]@ == name@
                    &&& self@.member_lookup(username@, name@) == Ok::<ChannelView, StateError>(
                        self.channels@[i as int]@,
                    )
                },
                Err(e) => self@.member_lookup(username@, name@) == Err::<ChannelView, StateError>(
                    e,
                ),
            },
    {
        if !channel_name_is_valid(name.as_str()) {
            return Err(StateError::new(ErrorCode::BadRequest, ErrorReason::InvalidChannelName));
        }
        let i = match self.channel_position(name) {
            None => {
                return Err(StateError::new(ErrorCode::NotFound, ErrorReason::ChannelDoesNotExist));
            },
            Some(i) => i,
        };
        if !user_exists(self, username.as_str()) {
            return Err(StateError::new(ErrorCode::NotFound, ErrorReason::UserDoesNotExist));
        }
        if position_of(&self.channels[i].users, username).is_none() {
            return Err(StateError::new(ErrorCode::BadRequest, ErrorReason::UserNotInChannel));
        }
        Ok(i)
    }

    /// The checks that posting to a channel makes before it posts: that the
    /// name is valid, the channel exists, the user exists and is a member.
    pub fn check_member(&self, channel_name: &String, username: &String) -> (r: StateResult<()>)
        requires
            self.wf(),
        ensures
            match r {
                Ok(_) => self@.member_lookup(username@, channel_name@) is Ok,
                Err(e) => self@.member_lookup(username@, channel_name@) == Err::<
                    ChannelView,
                    StateError,
                >(e),
            },
    {
        match self.member_position(channel_name, username) {
            Ok(_) => Ok(()),
            Err(e) => Err(e),
        }
    }

    /// The id that the next posted message will get.
    pub fn next_message_id(&self) -> (id: usize)
        ensures
            id == self@.next_message_id,
    {
        self.next_message_id
    }

    /// In a sound state the view satisfies the invariant.
    pub proof fn lemma_wf_inv(&self)
        requires
            self.wf(),
        ensures
            self@.inv(),
    {
    }
}

// ==============================
// Users
// ==============================

/// The registered users, each once, in no particular order.
pub fn get_users(state: &AppState) -> (users: Vec<String>)
    requires
        state.wf(),
    ensures
        string_set(users@) == state@.users,
        strings_distinct(users@),
{
    copy_strings(&state.users)
}

/// Whether a user of that name is registered.
pub fn user_exists(state: &AppState, username: &str) -> (b: bool)
    ensures
        b == state@.users.contains(username@),
{
    let key = String::from_str(username);
    position_of(&state.users, &key).is_some()
}

/// Registers a user and returns the name; refused when the name is taken.
pub fn create_user(state: &mut AppState, username: String) -> (r: StateResult<String>)
    requires
        old(state).wf(),
    ensures
        final(state).wf(),
        (match r {
            Ok(name) => Ok(name@),
            Err(e) => Err(e),
        }, final(state)@) == old(state)@.create_user_step(username@),
{
    if user_exists(state, username.as_str()) {
        return Err(StateError::new(ErrorCode::BadRequest, ErrorReason::UserAlreadyExists));
    }
    proof {
        lemma_string_set_push(state.users@, username);
        lemma_distinct_push(state.users@, username);
        lemma_create_user_keeps_inv(state@, username@);
    }
    let name = username.clone();
    state.users.push(username);
    Ok(name)
}

// ==============================
// Channels
// ==============================

/// The names of all channels, each once, in no particular order.
pub fn get_channels(state: &AppState) -> (names: Vec<String>)
    requires
        state.wf(),
    ensures
        string_set(names@) == state@.channels.dom(),
        strings_distinct(names@),
{
    proof {
        lemma_channel_map_dom(state.channel_names@, state.channels@);
    }
    copy_strings(&state.channel_names)
}

/// Whether `channel_name` is a valid channel name: it starts with `#`.
pub fn channel_name_is_valid(channel_name: &str) -> (b: bool)
    ensures
        b == channel_name_valid(channel_name@),
        b == (channel_name@.len() > 0 && channel_name@[0] == '#'),
{
    let v = chars_of(channel_name);
    v.len() > 0 && v[0] == '#'
}

/// Whether a channel of that name exists.
pub fn channel_exists(state: &AppState, channel_name: &str) -> (b: bool)
    ensures
        b == state@.channels.contains_key(channel_name@),
{
    proof {
        lemma_channel_map_dom(state.channel_names@, state.channels@);
    }
    let key = String::from_str(channel_name);
    position_of(&state.channel_names, &key).is_some()
}

/// Adds a user to a channel, creating the channel if it does not exist yet.
pub fn join_channel(state: &mut AppState, username: String, channel_name: String) -> (r:
    StateResult<()>)
    requires
        old(state).wf(),
    ensures
        final(state).wf(),
        (r, final(state)@) == old(state)@.join_channel_step(username@, channel_name@),
{
    if !user_exists(state, username.as_str()) {
        return Err(StateError::new(ErrorCode::BadRequest, ErrorReason::UserDoesNotExist));
    }
    if !channel_name_is_valid(channel_name.as_str()) {
        return Err(StateError::new(ErrorCode::BadRequest, ErrorReason::InvalidChannelName));
    }
    let ghost s0 = state@;
    let ghost names0 = state.channel_names@;
    let ghost chans0 = state.channels@;
    proof {
        lemma_join_channel_keeps_inv(s0, username@, channel_name@);
    }
    match state.channel_position(&channel_name) {
        Some(i) => {
            if position_of(&state.channels[i].users, &username).is_some() {
                return Err(
                    StateError::new(ErrorCode::BadRequest, ErrorReason::UserAlreadyInChannel),
                );
            }
            let ghost old_users = state.channels@[i as int].users@;
            proof {
                lemma_string_set_push(old_users, username);
                lemma_distinct_push(old_users, username);
            }
            state.channels[i].users.push(username);
            proof {
                assert(state.channels@ == chans0.update(i as int, state.channels@[i as int]));
                lemma_channel_map_update(names0, chans0, i as int, state.channels@[i as int]);
                assert(state@ == s0.join_channel_step(username@, channel_name@).1);
            }
        },
        None => {
            let mut users: Vec<String> = Vec::new();
            users.push(username);
            let ch = Channel { users, messages: Vec::new() };
            proof {
                lemma_string_set_push(Seq::empty(), username);
                assert(Seq::<String>::empty().push(username) =~= ch.users@);
                assert(string_set(Seq::<String>::empty()) =~= Set::empty());
                assert(message_views(ch.messages@) =~= Seq::empty());
                lemma_channel_map_dom(names0, chans0);
                lemma_channel_map_push(names0, chans0, channel_name, ch);
            }
            state.channel_names.push(channel_name);
            state.channels.push(ch);
            proof {
                assert(state@ == s0.join_channel_step(username@, channel_name@).1);
            }
        },
    }
    Ok(())
}

/// The members of a channel, each once, in no particular order.
pub fn list_channel_users(state: &AppState, channel_name: String) -> (r: StateResult<Vec<String>>)
    requires
        state.wf(),
    ensures
        match r {
            Ok(users) => {
                &&& state@.list_channel_users_result(channel_name@) == Ok::<
                    Set<Seq<char>>,
                    StateError,
                >(string_set(users@))
                &&& strings_distinct(users@)
            },
            Err(e) => state@.list_channel_users_result(channel_name@) == Err::<
                Set<Seq<char>>,
                StateError,
            >(e),
        },
{
    if !channel_name_is_valid(channel_name.as_str()) {
        return Err(StateError::new(ErrorCode::BadRequest, ErrorReason::InvalidChannelName));
    }
    match state.channel_position(&channel_name) {
        None => Err(StateError::new(ErrorCode::NotFound, ErrorReason::ChannelDoesNotExist)),
        Some(i) => Ok(copy_strings(&state.channels[i].users)),
    }
}

/// Removes a user from a channel; the channel stays, even when empty.
pub fn leave_channel(state: &mut AppState, username: String, channel_name: String) -> (r:
    StateResult<()>)
    requires
        old(state).wf(),
    ensures
        final(state).wf(),
        (r, final(state)@) == old(state)@.leave_channel_step(username@, channel_name@),
{
    if !channel_name_is_valid(channel_name.as_str()) {
        return Err(StateError::new(ErrorCode::BadRequest, ErrorReason::InvalidChannelName));
    }
    let ghost s0 = state@;
    let ghost names0 = state.channel_names@;
    let ghost chans0 = state.channels@;
    let i = match state.channel_position(&channel_name) {
        None => {
            return Err(StateError::new(ErrorCode::NotFound, ErrorReason::ChannelDoesNotExist));
        },
        Some(i) => i,
    };
    if !user_exists(state, username.as_str()) {
        return Err(StateError::new(ErrorCode::NotFound, ErrorReason::UserDoesNotExist));
    }
    let k = match position_of(&state.channels[i].users, &username) {
        None => {
            return Err(StateError::new(ErrorCode::BadRequest, ErrorReason::UserNotInChannel));
        },
        Some(k) => k,
    };
    proof {
        lemma_leave_channel_keeps_inv(s0, username@, channel_name@);
        lemma_string_set_remove(state.channels@[i as int].users@, k as int);
    }
    state.channels[i].users.remove(k);
    proof {
        assert(state.channels@ == chans0.update(i as int, state.channels@[i as int]));
        lemma_channel_map_update(names0, chans0, i as int, state.channels@[i as int]);
        assert(state@ == s0.leave_channel_step(username@, channel_name@).1);
    }
    Ok(())
}

// ==============================
// Messages
// ==============================

/// Posts a message to a channel; its id is the one returned.
pub fn send_message(state: &mut AppState, channel_name: String, username: String, text: String) -> (r:
    StateResult<usize>)
    requires
        old(state).wf(),
        old(state)@.send_message_step(channel_name@, username@, text@).0 is Ok
            ==> old(state)@.next_message_id < usize::MAX,
    ensures
        final(state).wf(),
        (r, final(state)@) == old(state)@.send_message_step(channel_name@, username@, text@),
{
    let ghost s0 = state@;
    let ghost names0 = state.channel_names@;
    let ghost chans0 = state.channels@;
    let i = match state.member_position(&channel_name, &username) {
        Err(e) => {
            return Err(e);
        },
        Ok(i) => i,
    };
    proof {
        lemma_send_message_keeps_inv(s0, channel_name@, username@, text@);
    }
    let message_id = state.next_message_id;
    state.next_message_id = message_id + 1;
    let ghost old_msgs = state.channels@[i as int].messages@;
    let message = Message::new(username, text, message_id);
    state.channels[i].messages.push(message);
    proof {
        assert(message_views(old_msgs.push(message)) =~= message_views(old_msgs).push(message@));
        assert(state.channels@ == chans0.update(i as int, state.channels@[i as int]));
        lemma_channel_map_update(names0, chans0, i as int, state.channels@[i as int]);
        assert(state@ == s0.send_message_step(channel_name@, username@, text@).1);
    }
    Ok(message_id)
}

/// A page of a channel's messages, newest first: `offset` of them skipped
/// (0 when not given), at most `limit` of them (20 when not given).
pub fn get_messages(
    state: &AppState,
    channel_name: String,
    limit: Option<usize>,
    offset: Option<usize>,
) -> (r: StateResult<Vec<Message>>)
    requires
        state.wf(),
    ensures
        match r {
            Ok(page) => state@.get_messages_result(channel_name@, limit, offset) == Ok::<
                Seq<MessageView>,
                StateError,
            >(message_views(page@)),
            Err(e) => state@.get_messages_result(channel_name@, limit, offset) == Err::<
                Seq<MessageView>,
                StateError,
            >(e),
        },
{
    if !channel_name_is_valid(channel_name.as_str()) {
        return Err(StateError::new(ErrorCode::BadRequest, ErrorReason::InvalidChannelName));
    }
    let i = match state.channel_position(&channel_name) {
        None => {
            return Err(StateError::new(ErrorCode::NotFound, ErrorReason::ChannelDoesNotExist));
        },
        Some(i) => i,
    };
    let limit = match limit {
        Some(l) => l,
        None => DEFAULT_LIMIT,
    };
    let offset = match offset {
        Some(o) => o,
        None => 0,
    };
    let messages = &state.channels[i].messages;
    let ghost all = message_views(messages@);
    let ghost expected = message_page(all, limit as nat, offset as nat);
    let len = messages.len();
    let mut page: Vec<Message> = Vec::new();
    if offset < len {
        let available = len - offset;
        let count = if limit < available {
            limit
        } else {
            available
        };
        assert(expected.len() == count);
        let mut k: usize = 0;
        while k < count
            invariant
                k <= count <= len - offset,
                offset < len,
                len == messages@.len(),
                all == message_views(messages@),
                expected.len() == count,
                expected == message_page(all, limit as nat, offset as nat),
                count == limit || count == len - offset,
                message_views(page@) == expected.subrange(0, k as int),
            decreases count - k,
        {
            let m = messages[len - 1 - offset - k].clone();
            let ghost before = page@;
            page.push(m);
            proof {
                assert(message_views(before.push(m)) =~= message_views(before).push(m@));
                assert(expected.subrange(0, k + 1) =~= expected.subrange(0, k as int).push(
                    expected[k as int],
                ));
            }
            k = k + 1;
        }
        assert(expected.subrange(0, count as int) =~= expected);
    } else {
        assert(message_views(page@) =~= expected);
    }
    Ok(page)
}

} // verus!
