//! Why a configuration is refused before any source is touched.

use vstd::prelude::*;
use vstd::string::StringExecFns;

verus! {

/// A configuration that no run is started with.
#[derive(Clone, Copy, Debug, PartialEq, Eq, Structural)]
pub enum ConfigError {
    /// Counting: bytes and characters were both asked for.
    BytesWithChars,
    /// Numbering: all lines and non-blank lines were both asked for.
    NumberWithNonblank,
    /// Truncation: the number of lines is zero.
    LinesNotPositive,
    /// Truncation: the number of bytes is zero.
    BytesNotPositive,
}

impl ConfigError {
    /// The refusal in words.
    pub open spec fn text(self) -> Seq<char> {
        match self {
            ConfigError::BytesWithChars => {
                "The argument '--bytes' cannot be used with '--chars'"@
            },
            ConfigError::NumberWithNonblank => {
                "the argument '--number-nonblank' (-b) cannot be used with '--number' (-n)"@
            },
            ConfigError::LinesNotPositive => "lines must be positive"@,
            ConfigError::BytesNotPositive => "bytes must be positive"@,
        }
    }

    /// The refusal in words.
    pub fn message(&self) -> (text: String)
        ensures
            text@ == self.text(),
    {
        match self {
            ConfigError::BytesWithChars => String::from_str(
                "The argument '--bytes' cannot be used with '--chars'",
            ),
            ConfigError::NumberWithNonblank => String::from_str(
                "the argument '--number-nonblank' (-b) cannot be used with '--number' (-n)",
            ),
            ConfigError::LinesNotPositive => String::from_str("lines must be positive"),
            ConfigError::BytesNotPositive => String::from_str("bytes must be positive"),
        }
    }
}

} // verus!
