//! The error that the result tree and its cursor report.

use vstd::prelude::*;
use vstd::string::*;
use vstd::std_specs::convert::FromSpecImpl;

verus! {

/// An error with a human-readable message.
#[derive(Debug)]
pub struct ShadowError {
    pub msg: String,
}

impl ShadowError {
    /// The text that is shown for an error with message `msg`.
    pub open spec fn display(msg: Seq<char>) -> Seq<char> {
        "[ShadowError] "@ + msg
    }

    /// The error as text: its message behind the marker `[ShadowError] `.
    pub fn to_string(&self) -> (text: String)
        ensures
            text@ == Self::display(self.msg@),
    {
        String::from_str("[ShadowError] ").concat(self.msg.as_str())
    }
}

impl From<&str> for ShadowError {
    /// An error whose message is a copy of `value`.
    fn from(value: &str) -> (e: ShadowError)
        ensures
            e.msg@ == value@,
    {
        ShadowError { msg: String::from_str(value) }
    }
}

impl FromSpecImpl<&str> for ShadowError {
    open spec fn obeys_from_spec() -> bool {
        false
    }

    open spec fn from_spec(value: &str) -> ShadowError {
        arbitrary()
    }
}

impl From<String> for ShadowError {
    /// An error with the message `msg`.
    fn from(msg: String) -> (e: ShadowError) {
        ShadowError { msg }
    }
}

impl FromSpecImpl<String> for ShadowError {
    open spec fn obeys_from_spec() -> bool {
        true
    }

    open spec fn from_spec(msg: String) -> ShadowError {
        ShadowError { msg }
    }
}

}
