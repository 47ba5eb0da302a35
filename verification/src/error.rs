//! Errors of an authentication attempt.
use vstd::prelude::*;

verus! {

#[derive(Clone, Copy, Debug, PartialEq, Eq, Structural)]
pub enum ErrorKind {
    WouldBlock,
    TimedOut,
    BrokenPipe,
    Interrupted,
    Other,
}

impl ErrorKind {
    /// What an error of this kind says when nothing more is known of it.
    pub open spec fn text(self) -> Seq<char> {
        match self {
            ErrorKind::WouldBlock => "operation would block"@,
            ErrorKind::TimedOut => "timed out"@,
            ErrorKind::BrokenPipe => "broken pipe"@,
            ErrorKind::Interrupted => "operation interrupted"@,
            ErrorKind::Other => "other error"@,
        }
    }
}

/// An error, and what to tell the user of it.
#[derive(Debug, PartialEq, Eq)]
pub struct AuthError {
    pub kind: ErrorKind,
    pub message: String,
}

pub struct ErrorView {
    pub kind: ErrorKind,
    pub message: Seq<char>,
}

impl View for AuthError {
    type V = ErrorView;

    open spec fn view(&self) -> ErrorView {
        ErrorView { kind: self.kind, message: self.message@ }
    }
}

impl Clone for AuthError {
    fn clone(&self) -> (copy: Self)
        ensures
            copy == *self,
    {
        AuthError { kind: self.kind, message: self.message.clone() }
    }
}

/// A result by its view: the value as it is, the error by what it holds.
pub open spec fn result_view<T>(result: Result<T, AuthError>) -> Result<T, ErrorView> {
    match result {
        Ok(value) => Ok(value),
        Err(error) => Err(error@),
    }
}

impl AuthError {
    pub fn new(kind: ErrorKind, message: &str) -> (error: AuthError)
        ensures
            error@ == (ErrorView { kind, message: message@ }),
    {
        AuthError { kind, message: message.to_string() }
    }

    /// An error of which only the kind is known.
    pub fn from_kind(kind: ErrorKind) -> (error: AuthError)
        ensures
            error@ == (ErrorView { kind, message: kind.text() }),
    {
        let message = match kind {
            ErrorKind::WouldBlock => "operation would block",
            ErrorKind::TimedOut => "timed out",
            ErrorKind::BrokenPipe => "broken pipe",
            ErrorKind::Interrupted => "operation interrupted",
            ErrorKind::Other => "other error",
        };
        AuthError::new(kind, message)
    }
}

} // verus!
