//! The two ways in which a collection fails.

use vstd::prelude::*;

verus! {

/// Why a collection produced no records.
#[derive(Debug, Clone, Copy, PartialEq, Eq, Structural)]
pub enum LaunchdError {
    /// No source file was found in any directory of either scope.
    PathError,
    /// Source files were found, but none of them yielded a record.
    PlistParseError,
}

impl LaunchdError {
    /// The text that describes the error to a reader.
    pub open spec fn message_text(self) -> Seq<char> {
        match self {
            LaunchdError::PathError => "failed to get source files"@,
            LaunchdError::PlistParseError => "Failed to parse PLIST file"@,
        }
    }

    /// Describes the error in words.
    pub fn message(&self) -> (text: String)
        ensures
            text@ == self.message_text(),
    {
        match self {
            LaunchdError::PathError => String::from_str("failed to get source files"),
            LaunchdError::PlistParseError => String::from_str("Failed to parse PLIST file"),
        }
    }
}

} // verus!
