//! Errors of the library.
use vstd::prelude::*;

verus! {

/// An error with the category the caller acts on and a human-readable message.
#[derive(Debug, PartialEq)]
pub enum CoreError {
    /// A configuration or input value is not acceptable.
    ConfigInvalid(String),
    /// The upstream subscription could not be fetched or was refused.
    SubscriptionFetch(String),
    /// The subscription content could not be parsed.
    SubscriptionParse(String),
    /// A plugin script returned an unusable result.
    ScriptRuntime(String),
    /// The current time could not be formatted.
    TimeFormat(String),
}

pub type CoreResult<T> = Result<T, CoreError>;

/// `e` is a parse error with the message `message`.
pub open spec fn parse_failure(e: CoreError, message: Seq<char>) -> bool {
    e matches CoreError::SubscriptionParse(m) && m@ == message
}

} // verus!
