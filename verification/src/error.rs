//! What can be wrong with the options of a run.

use vstd::prelude::*;
use vstd::string::StringExecFns;

verus! {

/// An option that cannot be used. Each holds the text that was given.
#[derive(Clone, Debug, PartialEq, Eq)]
pub enum ConfigError {
    /// The name of a sort mode that does not exist.
    UnknownSortMode(String),
    /// A depth that is not a decimal number, or too large a one.
    NotANumber(String),
    /// A name filter with more than one `*`.
    MalformedFilter(String),
}

impl ConfigError {
    /// The text that was refused.
    pub open spec fn token(self) -> Seq<char> {
        match self {
            ConfigError::UnknownSortMode(t) => t@,
            ConfigError::NotANumber(t) => t@,
            ConfigError::MalformedFilter(t) => t@,
        }
    }

    /// The message for the user, as characters.
    pub open spec fn message_text(self) -> Seq<char> {
        match self {
            ConfigError::UnknownSortMode(t) => "Unknown comparator "@ + t@ + ", exiting."@,
            ConfigError::NotANumber(t) => t@ + " is not a number"@,
            ConfigError::MalformedFilter(t) => "The filter "@ + t@
                + " is malformed. Run with the '--help' option for more information"@,
        }
    }

    /// The message for the user. It names the text that was refused.
    pub fn message(&self) -> (m: String)
        ensures
            m@ == self.message_text(),
    {
        match self {
            ConfigError::UnknownSortMode(t) => {
                let mut m = String::from_str("Unknown comparator ");
                m.append(t.as_str());
                m.append(", exiting.");
                m
            },
            ConfigError::NotANumber(t) => {
                let mut m = String::from_str(t.as_str());
                m.append(" is not a number");
                m
            },
            ConfigError::MalformedFilter(t) => {
                let mut m = String::from_str("The filter ");
                m.append(t.as_str());
                m.append(" is malformed. Run with the '--help' option for more information");
                m
            },
        }
    }
}

} // verus!
