//! The error type shared by the core modules.

use vstd::prelude::*;
use crate::text::str_cat;

verus! {

/// An error of the core modules: its kind and its message.
#[derive(Debug, Clone, PartialEq, Eq)]
pub enum CoreError {
    /// A plain message.
    Msg(String),
    Agent(String),
    P2p(String),
    Config(String),
    NotFound(String),
    /// A file-system failure, by its message.
    Io(String),
    /// A (de)serialisation failure, by its message.
    Serde(String),
}

impl CoreError {
    /// The text the error shows: a prefix naming its kind, then the message.
    pub open spec fn text(self) -> Seq<char> {
        match self {
            CoreError::Msg(m) => m@,
            CoreError::Agent(m) => "agent error: "@ + m@,
            CoreError::P2p(m) => "p2p error: "@ + m@,
            CoreError::Config(m) => "config error: "@ + m@,
            CoreError::NotFound(m) => "not found: "@ + m@,
            CoreError::Io(m) => "io error: "@ + m@,
            CoreError::Serde(m) => "serde error: "@ + m@,
        }
    }

    /// The text the error shows.
    pub fn message(&self) -> (r: String)
        ensures
            r@ == self.text(),
    {
        match self {
            CoreError::Msg(m) => m.clone(),
            CoreError::Agent(m) => str_cat("agent error: ", m.as_str()),
            CoreError::P2p(m) => str_cat("p2p error: ", m.as_str()),
            CoreError::Config(m) => str_cat("config error: ", m.as_str()),
            CoreError::NotFound(m) => str_cat("not found: ", m.as_str()),
            CoreError::Io(m) => str_cat("io error: ", m.as_str()),
            CoreError::Serde(m) => str_cat("serde error: ", m.as_str()),
        }
    }
}

} // verus!
