//! The error type shared by the server and the client.
use vstd::prelude::*;
use crate::text::{chars_of, push_str, string_of};

verus! {

/// Failures reported by the quote server and client.
#[derive(Clone, Debug)]
pub enum QuoteError {
    /// A value lies outside its permitted range.
    ValueError(String),
    /// Ticker data is missing or unknown.
    TickerError(String),
    /// A shared-state guard was poisoned.
    LockError(String),
    /// A server-side operational failure.
    ServerError(String),
    /// A client command is malformed or forbidden.
    CommandError(String),
}

/// The human-readable text of an error.
pub open spec fn error_text(e: QuoteError) -> Seq<char> {
    match e {
        QuoteError::ValueError(m) => m@,
        QuoteError::TickerError(m) => "ошибка при формировании тикера: "@ + m@,
        QuoteError::LockError(m) => "ошибка блокировки: "@ + m@,
        QuoteError::ServerError(m) => m@,
        QuoteError::CommandError(m) => m@,
    }
}

impl QuoteError {
    pub fn value_err(message: &str) -> (r: QuoteError)
        ensures
            r matches QuoteError::ValueError(m) && m@ == message@,
    {
        QuoteError::ValueError(message.to_owned())
    }

    pub fn ticker_err(message: &str) -> (r: QuoteError)
        ensures
            r matches QuoteError::TickerError(m) && m@ == message@,
    {
        QuoteError::TickerError(message.to_owned())
    }

    pub fn command_err(message: &str) -> (r: QuoteError)
        ensures
            r matches QuoteError::CommandError(m) && m@ == message@,
    {
        QuoteError::CommandError(message.to_owned())
    }

    pub fn server_err(message: &str) -> (r: QuoteError)
        ensures
            r matches QuoteError::ServerError(m) && m@ == message@,
    {
        QuoteError::ServerError(message.to_owned())
    }

    /// The text of the error, with the prefix of its kind where it has one.
    pub fn to_string(&self) -> (r: String)
        ensures
            r@ == error_text(*self),
    {
        match self {
            QuoteError::ValueError(m) => m.clone(),
            QuoteError::TickerError(m) => {
                let mut v = chars_of("ошибка при формировании тикера: ");
                push_str(&mut v, m.as_str());
                string_of(&v)
            },
            QuoteError::LockError(m) => {
                let mut v = chars_of("ошибка блокировки: ");
                push_str(&mut v, m.as_str());
                string_of(&v)
            },
            QuoteError::ServerError(m) => m.clone(),
            QuoteError::CommandError(m) => m.clone(),
        }
    }
}

} // verus!
