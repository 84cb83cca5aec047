//! The ways in which reading a build's results can fail.

use vstd::prelude::*;
use vstd::string::StringExecFns;

verus! {

/// What went wrong while a configuration file or a library was examined.
#[derive(Debug, Clone, Copy, PartialEq, Eq, Structural)]
pub enum ReadError {
    /// The configuration file or the library is not there.
    FileNotFound,
    /// A file is there but cannot be read, a line of it is no text, or a
    /// directory that exists cannot be resolved.
    IOError,
    /// The symbol tool or the dependency tool could not be started.
    ExternalToolUnavailable,
    /// A tool was started and did not end well.
    ExternalToolFailed,
    /// A line of the configuration file is not of the form `KEY=VALUE`.
    MalformedConfigLine,
}

impl ReadError {
    /// The text of `message`.
    pub open spec fn message_text(self) -> Seq<char> {
        match self {
            ReadError::FileNotFound => "file not found"@,
            ReadError::IOError => "input cannot be read"@,
            ReadError::ExternalToolUnavailable => "external tool cannot be started"@,
            ReadError::ExternalToolFailed => "external tool failed"@,
            ReadError::MalformedConfigLine => "configuration line is not KEY=VALUE"@,
        }
    }

    /// A short description of the error.
    pub fn message(&self) -> (r: String)
        ensures
            r@ == self.message_text(),
    {
        match self {
            ReadError::FileNotFound => String::from_str("file not found"),
            ReadError::IOError => String::from_str("input cannot be read"),
            ReadError::ExternalToolUnavailable => String::from_str(
                "external tool cannot be started",
            ),
            ReadError::ExternalToolFailed => String::from_str("external tool failed"),
            ReadError::MalformedConfigLine => String::from_str(
                "configuration line is not KEY=VALUE",
            ),
        }
    }
}

} // verus!
