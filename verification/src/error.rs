//! Errors that a request to the chat state can end in.

use vstd::prelude::*;

verus! {

/// The class of an error, as an HTTP status.
#[derive(Debug, Clone, Copy, PartialEq, Eq, Structural)]
pub enum ErrorCode {
    /// 400: the request is malformed or conflicts with the current state.
    BadRequest,
    /// 404: the request names a channel or user that is not there.
    NotFound,
}

/// The numeric HTTP status of each error class.
pub open spec fn spec_code_number(code: ErrorCode) -> u16 {
    match code {
        ErrorCode::BadRequest => 400,
        ErrorCode::NotFound => 404,
    }
}

impl ErrorCode {
    /// The numeric HTTP status: 400 for a bad request, 404 for not found.
    pub fn as_u16(&self) -> (n: u16)
        ensures
            n == spec_code_number(*self),
    {
        match self {
            ErrorCode::BadRequest => 400,
            ErrorCode::NotFound => 404,
        }
    }
}

/// Why a request was refused.
#[derive(Debug, Clone, Copy, PartialEq, Eq, Structural)]
pub enum ErrorReason {
    UserAlreadyExists,
    UserDoesNotExist,
    InvalidChannelName,
    ChannelDoesNotExist,
    UserAlreadyInChannel,
    UserNotInChannel,
    InvalidRegisterCommand,
    AlreadyLoggedIn,
    InvalidLoginCommand,
    InvalidLogoutCommand,
    NotLoggedIn,
    UnknownCommand,
}

/// The text that is sent back to a client for each reason.
pub open spec fn spec_reason_text(reason: ErrorReason) -> Seq<char> {
    match reason {
        ErrorReason::UserAlreadyExists => "User already exists"@,
        ErrorReason::UserDoesNotExist => "User does not exist"@,
        ErrorReason::InvalidChannelName => "Channel must start with #"@,
        ErrorReason::ChannelDoesNotExist => "Channel does not exist"@,
        ErrorReason::UserAlreadyInChannel => "User already in channel"@,
        ErrorReason::UserNotInChannel => "User not in channel"@,
        ErrorReason::InvalidRegisterCommand => "Invalid register command; expected `REGISTER <username>`"@,
        ErrorReason::AlreadyLoggedIn => "Already logged in"@,
        ErrorReason::InvalidLoginCommand => "Invalid login command; expected `LOGIN <username>`"@,
        ErrorReason::InvalidLogoutCommand => "Invalid logout command; expected `LOGOUT`"@,
        ErrorReason::NotLoggedIn => "User is not logged in"@,
        ErrorReason::UnknownCommand => "Unknown command"@,
    }
}

impl ErrorReason {
    /// The text sent back to a client for this reason.
    pub fn message(&self) -> (s: String)
        ensures
            s@ == spec_reason_text(*self),
    {
        match self {
            ErrorReason::UserAlreadyExists => String::from_str("User already exists"),
            ErrorReason::UserDoesNotExist => String::from_str("User does not exist"),
            ErrorReason::InvalidChannelName => String::from_str("Channel must start with #"),
            ErrorReason::ChannelDoesNotExist => String::from_str("Channel does not exist"),
            ErrorReason::UserAlreadyInChannel => String::from_str("User already in channel"),
            ErrorReason::UserNotInChannel => String::from_str("User not in channel"),
            ErrorReason::InvalidRegisterCommand => String::from_str(
                "Invalid register command; expected `REGISTER <username>`",
            ),
            ErrorReason::AlreadyLoggedIn => String::from_str("Already logged in"),
            ErrorReason::InvalidLoginCommand => String::from_str(
                "Invalid login command; expected `LOGIN <username>`",
            ),
            ErrorReason::InvalidLogoutCommand => String::from_str(
                "Invalid logout command; expected `LOGOUT`",
            ),
            ErrorReason::NotLoggedIn => String::from_str("User is not logged in"),
            ErrorReason::UnknownCommand => String::from_str("Unknown command"),
        }
    }
}

/// A refused request: its HTTP status class and its reason.
#[derive(Debug, Clone, Copy, PartialEq, Eq, Structural)]
pub struct StateError {
    pub code: ErrorCode,
    pub reason: ErrorReason,
}

/// The result of a request on the chat state.
pub type StateResult<T> = Result<T, StateError>;

/// A refused request with the given class and reason.
pub open spec fn err(code: ErrorCode, reason: ErrorReason) -> StateError {
    StateError { code, reason }
}

impl StateError {
    /// Builds the error of the given class and reason.
    pub fn new(code: ErrorCode, reason: ErrorReason) -> (e: StateError)
        ensures
            e == err(code, reason),
    {
        StateError { code, reason }
    }

    /// The numeric HTTP status of this error.
    pub fn status(&self) -> (n: u16)
        ensures
            n == spec_code_number(self.code),
    {
        self.code.as_u16()
    }

    /// The text sent back to a client for this error.
    pub fn message(&self) -> (s: String)
        ensures
            s@ == spec_reason_text(self.reason),
    {
        self.reason.message()
    }
}

} // verus!
