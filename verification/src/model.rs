//! The abstract model of the chat state: what users, channels and messages
//! there are, and how each request changes them.

use vstd::prelude::*;

use crate::error::{err, ErrorCode, ErrorReason, StateResult};

verus! {

/// A posted message, as a value.
#[verifier::ext_equal]
pub struct MessageView {
    pub username: Seq<char>,
    pub text: Seq<char>,
    pub message_id: usize,
}

/// A channel: who is in it, and its messages from oldest to newest.
#[verifier::ext_equal]
pub struct ChannelView {
    pub users: Set<Seq<char>>,
    pub messages: Seq<MessageView>,
}

/// The whole chat state: registered users, channels by name, and the id
/// that the next message will get.
#[verifier::ext_equal]
pub struct AppStateView {
    pub users: Set<Seq<char>>,
    pub channels: Map<Seq<char>, ChannelView>,
    pub next_message_id: usize,
}

/// The number of messages a page holds when the request names no limit.
pub const DEFAULT_LIMIT: usize = 20;

/// A channel name is valid when it starts with `#`.
pub open spec fn channel_name_valid(name: Seq<char>) -> bool {
    name.len() > 0 && name[0] == '#'
}

/// The page of `messages` that a listing returns: newest first, the first
/// `offset` of them skipped, at most `limit` of them.
pub open spec fn message_page(messages: Seq<MessageView>, limit: nat, offset: nat) -> Seq<
    MessageView,
> {
    let newest_first = messages.reverse();
    if offset >= newest_first.len() {
        Seq::empty()
    } else if offset + limit >= newest_first.len() {
        newest_first.subrange(offset as int, newest_first.len() as int)
    } else {
        newest_first.subrange(offset as int, (offset + limit) as int)
    }
}

impl ChannelView {
    /// A channel with no users and no messages.
    pub open spec fn empty() -> ChannelView {
        ChannelView { users: Set::empty(), messages: Seq::empty() }
    }
}

impl AppStateView {
    /// The state of a freshly started server.
    pub open spec fn initial() -> AppStateView {
        AppStateView { users: Set::empty(), channels: Map::empty(), next_message_id: 0 }
    }

    pub open spec fn with_users(self, users: Set<Seq<char>>) -> AppStateView {
        AppStateView { users, channels: self.channels, next_message_id: self.next_message_id }
    }

    pub open spec fn with_channel(self, name: Seq<char>, channel: ChannelView) -> AppStateView {
        AppStateView {
            users: self.users,
            channels: self.channels.insert(name, channel),
            next_message_id: self.next_message_id,
        }
    }

    /// The channel of that name, or an empty one where there is none.
    pub open spec fn channel_or_empty(self, name: Seq<char>) -> ChannelView {
        if self.channels.contains_key(name) {
            self.channels[name]
        } else {
            ChannelView::empty()
        }
    }

    // ---------------- requests ----------------

    /// Registering a user: refused when the name is taken; on success the
    /// registered name is given back.
    pub open spec fn create_user_step(self, username: Seq<char>) -> (
        StateResult<Seq<char>>,
        AppStateView,
    ) {
        if self.users.contains(username) {
            (Err(err(ErrorCode::BadRequest, ErrorReason::UserAlreadyExists)), self)
        } else {
            (Ok(username), self.with_users(self.users.insert(username)))
        }
    }

    /// Joining a channel, which is created where it does not exist yet.
    pub open spec fn join_channel_step(self, username: Seq<char>, name: Seq<char>) -> (
        StateResult<()>,
        AppStateView,
    ) {
        if !self.users.contains(username) {
            (Err(err(ErrorCode::BadRequest, ErrorReason::UserDoesNotExist)), self)
        } else if !channel_name_valid(name) {
            (Err(err(ErrorCode::BadRequest, ErrorReason::InvalidChannelName)), self)
        } else if self.channels.contains_key(name) && self.channels[name].users.contains(
            username,
        ) {
            (Err(err(ErrorCode::BadRequest, ErrorReason::UserAlreadyInChannel)), self)
        } else {
            let ch = self.channel_or_empty(name);
            (
                Ok(()),
                self.with_channel(
                    name,
                    ChannelView { users: ch.users.insert(username), messages: ch.messages },
                ),
            )
        }
    }

    /// The checks that every request on an existing channel makes first.
    pub open spec fn channel_lookup(self, name: Seq<char>) -> StateResult<ChannelView> {
        if !channel_name_valid(name) {
            Err(err(ErrorCode::BadRequest, ErrorReason::InvalidChannelName))
        } else if !self.channels.contains_key(name) {
            Err(err(ErrorCode::NotFound, ErrorReason::ChannelDoesNotExist))
        } else {
            Ok(self.channels[name])
        }
    }

    /// The users of a channel.
    pub open spec fn list_channel_users_result(self, name: Seq<char>) -> StateResult<
        Set<Seq<char>>,
    > {
        match self.channel_lookup(name) {
            Err(e) => Err(e),
            Ok(ch) => Ok(ch.users),
        }
    }

    /// The checks that a member's request on a channel makes: the channel,
    /// then the user, then the membership.
    pub open spec fn member_lookup(self, username: Seq<char>, name: Seq<char>) -> StateResult<
        ChannelView,
    > {
        match self.channel_lookup(name) {
            Err(e) => Err(e),
            Ok(ch) => if !self.users.contains(username) {
                Err(err(ErrorCode::NotFound, ErrorReason::UserDoesNotExist))
            } else if !ch.users.contains(username) {
                Err(err(ErrorCode::BadRequest, ErrorReason::UserNotInChannel))
            } else {
                Ok(ch)
            },
        }
    }

    /// Leaving a channel; the channel stays, possibly empty.
    pub open spec fn leave_channel_step(self, username: Seq<char>, name: Seq<char>) -> (
        StateResult<()>,
        AppStateView,
    ) {
        match self.member_lookup(username, name) {
            Err(e) => (Err(e), self),
            Ok(ch) => (
                Ok(()),
                self.with_channel(
                    name,
                    ChannelView { users: ch.users.remove(username), messages: ch.messages },
                ),
            ),
        }
    }

    /// Posting a message: it gets the next id and goes at the end of the channel.
    pub open spec fn send_message_step(
        self,
        name: Seq<char>,
        username: Seq<char>,
        text: Seq<char>,
    ) -> (StateResult<usize>, AppStateView) {
        match self.member_lookup(username, name) {
            Err(e) => (Err(e), self),
            Ok(ch) => {
                let id = self.next_message_id;
                let msg = MessageView { username, text, message_id: id };
                let posted = AppStateView {
                    users: self.users,
                    channels: self.channels.insert(
                        name,
                        ChannelView { users: ch.users, messages: ch.messages.push(msg) },
                    ),
                    next_message_id: (id + 1) as usize,
                };
                (Ok(id), posted)
            },
        }
    }

    /// A page of a channel's messages; `limit` defaults to 20, `offset` to 0.
    pub open spec fn get_messages_result(
        self,
        name: Seq<char>,
        limit: Option<usize>,
        offset: Option<usize>,
    ) -> StateResult<Seq<MessageView>> {
        match self.channel_lookup(name) {
            Err(e) => Err(e),
            Ok(ch) => Ok(
                message_page(
                    ch.messages,
                    limit.unwrap_or(DEFAULT_LIMIT) as nat,
                    offset.unwrap_or(0) as nat,
                ),
            ),
        }
    }

    // ---------------- invariant ----------------

    /// Every channel's name starts with `#`.
    pub open spec fn names_valid(self) -> bool {
        forall|n: Seq<char>| #[trigger] self.channels.contains_key(n) ==> channel_name_valid(n)
    }

    /// Every member of a channel is a registered user.
    pub open spec fn members_registered(self) -> bool {
        forall|n: Seq<char>, u: Seq<char>|
            self.channels.contains_key(n) && #[trigger] self.channels[n].users.contains(u)
                ==> self.users.contains(u)
    }

    /// Every message was posted by a registered user.
    pub open spec fn authors_registered(self) -> bool {
        forall|n: Seq<char>, i: int|
            self.channels.contains_key(n) && 0 <= i < self.channels[n].messages.len()
                ==> self.users.contains(#[trigger] self.channels[n].messages[i].username)
    }

    /// Every message id is below the next one to be handed out.
    pub open spec fn ids_below_next(self) -> bool {
        forall|n: Seq<char>, i: int|
            self.channels.contains_key(n) && 0 <= i < self.channels[n].messages.len()
                ==> #[trigger] self.channels[n].messages[i].message_id < self.next_message_id
    }

    /// Within a channel, ids grow from older to newer messages.
    pub open spec fn ids_increasing(self) -> bool {
        forall|n: Seq<char>, i: int, j: int|
            self.channels.contains_key(n) && 0 <= i < j < self.channels[n].messages.len()
                ==> #[trigger] self.channels[n].messages[i].message_id
                < #[trigger] self.channels[n].messages[j].message_id
    }

    /// No two messages in different channels share an id.
    pub open spec fn ids_unique_across_channels(self) -> bool {
        forall|n1: Seq<char>, n2: Seq<char>, i: int, j: int|
            n1 != n2 && self.channels.contains_key(n1) && self.channels.contains_key(n2) && 0 <= i
                < self.channels[n1].messages.len() && 0 <= j < self.channels[n2].messages.len()
                ==> #[trigger] self.channels[n1].messages[i].message_id
                != #[trigger] self.channels[n2].messages[j].message_id
    }

    /// What holds of every state the server can reach.
    pub open spec fn inv(self) -> bool {
        &&& self.names_valid()
        &&& self.members_registered()
        &&& self.authors_registered()
        &&& self.ids_below_next()
        &&& self.ids_increasing()
        &&& self.ids_unique_across_channels()
    }
}

/// The freshly started server satisfies the invariant.
pub proof fn lemma_initial_inv()
    ensures
        AppStateView::initial().inv(),
{
}

/// Registering a user keeps the invariant.
pub proof fn lemma_create_user_keeps_inv(s: AppStateView, username: Seq<char>)
    requires
        s.inv(),
    ensures
        s.create_user_step(username).1.inv(),
{
}

/// Joining a channel keeps the invariant.
pub proof fn lemma_join_channel_keeps_inv(s: AppStateView, username: Seq<char>, name: Seq<char>)
    requires
        s.inv(),
    ensures
        s.join_channel_step(username, name).1.inv(),
{
    let t = s.join_channel_step(username, name).1;
    if t != s {
        assert forall|n: Seq<char>, u: Seq<char>|
            t.channels.contains_key(n) && #[trigger] t.channels[n].users.contains(u) implies t.users.contains(u) by {
            if n != name {
                assert(s.channels[n].users.contains(u));
            }
        }
        assert(t.ids_unique_across_channels());
    }
}

/// Leaving a channel keeps the invariant.
pub proof fn lemma_leave_channel_keeps_inv(s: AppStateView, username: Seq<char>, name: Seq<char>)
    requires
        s.inv(),
    ensures
        s.leave_channel_step(username, name).1.inv(),
{
    let t = s.leave_channel_step(username, name).1;
    if t != s {
        assert forall|n: Seq<char>, u: Seq<char>|
            t.channels.contains_key(n) && #[trigger] t.channels[n].users.contains(u) implies t.users.contains(u) by {
            assert(s.channels[n].users.contains(u));
        }
    }
}

/// Posting a message keeps the invariant, as long as the next id can be
/// counted up.
pub proof fn lemma_send_message_keeps_inv(
    s: AppStateView,
    name: Seq<char>,
    username: Seq<char>,
    text: Seq<char>,
)
    requires
        s.inv(),
        s.send_message_step(name, username, text).0 is Ok ==> s.next_message_id < usize::MAX,
    ensures
        s.send_message_step(name, username, text).1.inv(),
{
    let t = s.send_message_step(name, username, text).1;
    if t != s {
        let old_msgs = s.channels[name].messages;
        let new_msgs = t.channels[name].messages;
        assert(new_msgs.len() == old_msgs.len() + 1);
        assert forall|n: Seq<char>, i: int|
            t.channels.contains_key(n) && 0 <= i < t.channels[n].messages.len()
                implies #[trigger] t.channels[n].messages[i].message_id < t.next_message_id by {
            if n != name || i < old_msgs.len() {
                assert(s.channels[n].messages[i].message_id < s.next_message_id);
            }
        }
        assert forall|n: Seq<char>, i: int|
            t.channels.contains_key(n) && 0 <= i < t.channels[n].messages.len()
                implies t.users.contains(#[trigger] t.channels[n].messages[i].username) by {
            if n != name || i < old_msgs.len() {
                assert(s.users.contains(s.channels[n].messages[i].username));
            }
        }
        assert forall|n: Seq<char>, i: int, j: int|
            t.channels.contains_key(n) && 0 <= i < j < t.channels[n].messages.len()
                implies #[trigger] t.channels[n].messages[i].message_id
                < #[trigger] t.channels[n].messages[j].message_id by {
            if n != name || j < old_msgs.len() {
                assert(s.channels[n].messages[i].message_id < s.channels[n].messages[j].message_id);
            } else {
                assert(s.channels[n].messages[i].message_id < s.next_message_id);
            }
        }
        assert forall|n1: Seq<char>, n2: Seq<char>, i: int, j: int|
            n1 != n2 && t.channels.contains_key(n1) && t.channels.contains_key(n2) && 0 <= i
                < t.channels[n1].messages.len() && 0 <= j < t.channels[n2].messages.len()
                implies #[trigger] t.channels[n1].messages[i].message_id
                != #[trigger] t.channels[n2].messages[j].message_id by {
            if n1 == name && i == old_msgs.len() {
                assert(s.channels[n2].messages[j].message_id < s.next_message_id);
            } else if n2 == name && j == old_msgs.len() {
                assert(s.channels[n1].messages[i].message_id < s.next_message_id);
            } else {
                assert(s.channels[n1].messages[i].message_id != s.channels[n2].messages[j].message_id);
            }
        }
    }
}

} // verus!
