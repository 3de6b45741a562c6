//! The line-based command protocol of a TCP connection: the per-connection
//! login state, the commands `REGISTER`, `LOGIN`, `LOGOUT` and `QUIT`, and the
//! splitting of the received text into lines.

use vstd::prelude::*;

use crate::error::{err, ErrorCode, ErrorReason, StateError, StateResult};
use crate::model::AppStateView;
use crate::state::{create_user, user_exists, AppState};
use crate::text::{is_first_index_of, split_on, split_on_char, split_once, starts_with, trim, trimmed};

verus! {

/// The command that a reply answers.
#[derive(Debug, Clone, Copy, PartialEq, Eq, Structural)]
pub enum Operation {
    Register,
    Login,
    Logout,
}

/// The name of an operation as the protocol spells it in replies.
pub open spec fn spec_operation_name(op: Operation) -> Seq<char> {
    match op {
        Operation::Register => "register"@,
        Operation::Login => "login"@,
        Operation::Logout => "logout"@,
    }
}

impl Operation {
    /// The name of the operation as the protocol spells it in replies.
    pub fn name(&self) -> (s: String)
        ensures
            s@ == spec_operation_name(*self),
    {
        match self {
            Operation::Register => String::from_str("register"),
            Operation::Login => String::from_str("login"),
            Operation::Logout => String::from_str("logout"),
        }
    }
}

/// A successful answer to a command: which command, and for which user.
pub struct Reply {
    pub operation: Operation,
    pub username: String,
}

/// A reply, as a value.
pub struct ReplyView {
    pub operation: Operation,
    pub username: Seq<char>,
}

impl View for Reply {
    type V = ReplyView;

    open spec fn view(&self) -> ReplyView {
        ReplyView { operation: self.operation, username: self.username@ }
    }
}

/// A command's outcome, as a value.
pub open spec fn reply_result_view(r: StateResult<Reply>) -> StateResult<ReplyView> {
    match r {
        Ok(reply) => Ok(reply@),
        Err(e) => Err(e),
    }
}

/// What the connection does after a line: close, or send back an answer.
pub enum SocketOperation {
    Close,
    Send(StateResult<Reply>),
}

/// The outcome of a line, as a value.
pub enum SocketOperationView {
    Close,
    Send(StateResult<ReplyView>),
}

impl View for SocketOperation {
    type V = SocketOperationView;

    open spec fn view(&self) -> SocketOperationView {
        match self {
            SocketOperation::Close => SocketOperationView::Close,
            SocketOperation::Send(r) => SocketOperationView::Send(reply_result_view(*r)),
        }
    }
}

/// The state of one connection: who, if anyone, is logged in on it.
pub struct Session {
    user: Option<String>,
}

/// The user logged in on a connection, as a value.
pub open spec fn session_user_view(user: Option<String>) -> Option<Seq<char>> {
    match user {
        Some(u) => Some(u@),
        None => None,
    }
}

impl View for Session {
    type V = Option<Seq<char>>;

    closed spec fn view(&self) -> Option<Seq<char>> {
        session_user_view(self.user)
    }
}

// ---------------- the protocol, as values ----------------

/// `REGISTER <username>`: registers the user.
pub open spec fn register_step(s: AppStateView, line: Seq<char>) -> (
    StateResult<ReplyView>,
    AppStateView,
) {
    let parts = split_on(line, ' ');
    if parts.len() != 2 {
        (Err(err(ErrorCode::BadRequest, ErrorReason::InvalidRegisterCommand)), s)
    } else {
        let (r, t) = s.create_user_step(parts[1]);
        match r {
            Ok(_) => (Ok(ReplyView { operation: Operation::Register, username: parts[1] }), t),
            Err(e) => (Err(e), t),
        }
    }
}

/// `LOGIN <username>`: logs the connection in as a registered user.
pub open spec fn login_step(
    user: Option<Seq<char>>,
    s: AppStateView,
    line: Seq<char>,
) -> (StateResult<ReplyView>, Option<Seq<char>>) {
    let parts = split_on(line, ' ');
    if user is Some {
        (Err(err(ErrorCode::BadRequest, ErrorReason::AlreadyLoggedIn)), user)
    } else if parts.len() != 2 {
        (Err(err(ErrorCode::BadRequest, ErrorReason::InvalidLoginCommand)), user)
    } else if !s.users.contains(parts[1]) {
        (Err(err(ErrorCode::BadRequest, ErrorReason::UserDoesNotExist)), user)
    } else {
        (Ok(ReplyView { operation: Operation::Login, username: parts[1] }), Some(parts[1]))
    }
}

/// `LOGOUT`: logs the connection out.
pub open spec fn logout_step(user: Option<Seq<char>>, line: Seq<char>) -> (
    StateResult<ReplyView>,
    Option<Seq<char>>,
) {
    if split_on(line, ' ').len() != 1 {
        (Err(err(ErrorCode::BadRequest, ErrorReason::InvalidLogoutCommand)), user)
    } else {
        match user {
            None => (Err(err(ErrorCode::BadRequest, ErrorReason::NotLoggedIn)), user),
            Some(u) => (Ok(ReplyView { operation: Operation::Logout, username: u }), None),
        }
    }
}

/// One received line: trimmed, then dispatched on its (case-sensitive) prefix.
pub open spec fn line_step(user: Option<Seq<char>>, s: AppStateView, raw: Seq<char>) -> (
    SocketOperationView,
    Option<Seq<char>>,
    AppStateView,
) {
    let line = trimmed(raw);
    if "REGISTER"@.is_prefix_of(line) {
        let (r, t) = register_step(s, line);
        (SocketOperationView::Send(r), user, t)
    } else if "LOGIN"@.is_prefix_of(line) {
        let (r, u) = login_step(user, s, line);
        (SocketOperationView::Send(r), u, s)
    } else if "LOGOUT"@.is_prefix_of(line) {
        let (r, u) = logout_step(user, line);
        (SocketOperationView::Send(r), u, s)
    } else if "QUIT"@.is_prefix_of(line) {
        (SocketOperationView::Close, user, s)
    } else {
        (
            SocketOperationView::Send(Err(err(ErrorCode::BadRequest, ErrorReason::UnknownCommand))),
            user,
            s,
        )
    }
}

// ---------------- the protocol, executed ----------------

impl Session {
    /// A connection on which nobody is logged in.
    pub fn new() -> (s: Session)
        ensures
            s@ == None::<Seq<char>>,
    {
        Session { user: None }
    }

    /// The user logged in on this connection, if any.
    pub fn user(&self) -> (u: Option<&String>)
        ensures
            match u {
                Some(name) => self@ == Some(name@),
                None => self@ == None::<Seq<char>>,
            },
    {
        match &self.user {
            Some(name) => Some(name),
            None => None,
        }
    }
}

/// Handles `REGISTER <username>`.
pub fn handle_register(state: &mut AppState, line: &str) -> (r: StateResult<Reply>)
    requires
        old(state).wf(),
    ensures
        final(state).wf(),
        (reply_result_view(r), final(state)@) == register_step(old(state)@, line@),
{
    let parts = split_on_char(line, ' ');
    if parts.len() != 2 {
        return Err(StateError::new(ErrorCode::BadRequest, ErrorReason::InvalidRegisterCommand));
    }
    let username = parts[1].clone();
    match create_user(state, username) {
        Ok(username) => Ok(Reply { operation: Operation::Register, username }),
        Err(e) => Err(e),
    }
}

/// Handles `LOGIN <username>`.
pub fn handle_login(session: &mut Session, state: &AppState, line: &str) -> (r: StateResult<Reply>)
    ensures
        (reply_result_view(r), final(session)@) == login_step(old(session)@, state@, line@),
{
    if session.user.is_some() {
        return Err(StateError::new(ErrorCode::BadRequest, ErrorReason::AlreadyLoggedIn));
    }
    let parts = split_on_char(line, ' ');
    if parts.len() != 2 {
        return Err(StateError::new(ErrorCode::BadRequest, ErrorReason::InvalidLoginCommand));
    }
    let username = parts[1].clone();
    if !user_exists(state, username.as_str()) {
        return Err(StateError::new(ErrorCode::BadRequest, ErrorReason::UserDoesNotExist));
    }
    session.user = Some(username.clone());
    Ok(Reply { operation: Operation::Login, username })
}

/// Handles `LOGOUT`.
pub fn handle_logout(session: &mut Session, line: &str) -> (r: StateResult<Reply>)
    ensures
        (reply_result_view(r), final(session)@) == logout_step(old(session)@, line@),
{
    let parts = split_on_char(line, ' ');
    if parts.len() != 1 {
        return Err(StateError::new(ErrorCode::BadRequest, ErrorReason::InvalidLogoutCommand));
    }
    match session.user.clone() {
        None => Err(StateError::new(ErrorCode::BadRequest, ErrorReason::NotLoggedIn)),
        Some(username) => {
            session.user = None;
            Ok(Reply { operation: Operation::Logout, username })
        },
    }
}

/// Handles one received line of the protocol.
pub fn handle_line(session: &mut Session, state: &mut AppState, raw: &str) -> (op: SocketOperation)
    requires
        old(state).wf(),
    ensures
        final(state).wf(),
        (op@, final(session)@, final(state)@) == line_step(old(session)@, old(state)@, raw@),
{
    let line = trim(raw);
    if starts_with(line, "REGISTER") {
        SocketOperation::Send(handle_register(state, line))
    } else if starts_with(line, "LOGIN") {
        SocketOperation::Send(handle_login(session, state, line))
    } else if starts_with(line, "LOGOUT") {
        SocketOperation::Send(handle_logout(session, line))
    } else if starts_with(line, "QUIT") {
        SocketOperation::Close
    } else {
        SocketOperation::Send(Err(StateError::new(ErrorCode::BadRequest, ErrorReason::UnknownCommand)))
    }
}

// ---------------- framing ----------------

/// Text received on a connection that does not yet form a whole line.
pub struct LineBuffer {
    pending: String,
}

impl View for LineBuffer {
    type V = Seq<char>;

    closed spec fn view(&self) -> Seq<char> {
        self.pending@
    }
}

impl LineBuffer {
    /// An empty buffer.
    pub fn new() -> (b: LineBuffer)
        ensures
            b@ == Seq::<char>::empty(),
    {
        LineBuffer { pending: String::new() }
    }

    /// Appends received text.
    pub fn push_str(&mut self, text: &str)
        ensures
            final(self)@ == old(self)@ + text@,
    {
        self.pending.append(text);
    }

    /// Takes the first whole line out of the buffer, without its `\n`;
    /// `None`, with the buffer unchanged, when no `\n` has arrived yet.
    pub fn next_line(&mut self) -> (line: Option<String>)
        ensures
            match line {
                Some(l) => exists|k: int|
                    #[trigger] is_first_index_of(old(self)@, '\n', k) && l@ == old(self)@.subrange(0, k)
                        && final(self)@ == old(self)@.subrange(k + 1, old(self)@.len() as int),
                None => !old(self)@.contains('\n') && final(self)@ == old(self)@,
            },
    {
        let ghost before = self.pending@;
        match split_once(self.pending.as_str(), '\n') {
            Some((line, rest)) => {
                assert(before == old(self)@);
                self.pending = rest;
                Some(line)
            },
            None => None,
        }
    }
}

} // verus!
