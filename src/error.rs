//! The hard errors that stop the reading of a log.
use vstd::prelude::*;

verus! {

/// A condition that aborts the reading of a log.
#[derive(Clone, Debug, PartialEq, Eq)]
pub enum LogError {
    /// A kill line that does not split into a killer clause and a rest.
    MalformedKillLine,
    /// A kill line whose rest names no cause of death.
    MissingCauseOfDeath,
    /// A cause-of-death token outside the vocabulary; it carries the token.
    UnrecognizedCause(String),
}

/// What a `LogError` says, with the token as a sequence of characters.
pub enum Fault {
    /// See `LogError::MalformedKillLine`.
    MalformedKillLine,
    /// See `LogError::MissingCauseOfDeath`.
    MissingCauseOfDeath,
    /// See `LogError::UnrecognizedCause`.
    UnrecognizedCause(Seq<char>),
}

impl View for LogError {
    type V = Fault;

    open spec fn view(&self) -> Fault {
        match self {
            LogError::MalformedKillLine => Fault::MalformedKillLine,
            LogError::MissingCauseOfDeath => Fault::MissingCauseOfDeath,
            LogError::UnrecognizedCause(t) => Fault::UnrecognizedCause(t@),
        }
    }
}

} // verus!
