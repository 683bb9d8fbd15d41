//! The conditions under which a run, a query or a single mapping fails.

use vstd::prelude::*;

verus! {

/// An I/O failure met by the caller while it read a file or ran the backend.
#[verifier::external_type_specification]
#[verifier::external_body]
pub struct ExIoError(std::io::Error);

/// A failure of the JSON decoder on the configuration text.
#[verifier::external_type_specification]
#[verifier::external_body]
pub struct ExJsonError(serde_json::Error);

/// What went wrong, for the failures this library detects itself.
#[derive(Debug, Clone, Copy, PartialEq, Eq, Structural)]
pub enum ErrorKind {
    /// The source folder is missing.
    SourceNotExist,
    /// The destination is not of the form `host` or `user@host`.
    DestinationInvalid,
    /// The configuration file is missing.
    ConfigNotExist,
    /// The source folder is not inside a repository.
    SourceNotGitRepo,
    /// A commit specifier is neither a reference nor a range of two.
    InvalidSpecifierFormat,
    /// The backend could not be launched.
    BackendUnavailable,
    /// The backend ran and reported failure.
    BackendQueryFailed,
    /// A line of backend output lacks a token that its status calls for.
    MalformedDiffOutput,
    /// A pattern of the configuration is not a regular expression.
    ConfigInvalid,
    /// A rule matched a path that does not lie under the rule's pattern.
    PathStripMismatch,
}

impl ErrorKind {
    /// The text shown to the operator for each kind.
    pub open spec fn message(self) -> Seq<char> {
        match self {
            ErrorKind::SourceNotExist => "Source folder does not exist"@,
            ErrorKind::DestinationInvalid => "The format of destination is invalid, cannot parse it"@,
            ErrorKind::ConfigNotExist => "Config file does not exist"@,
            ErrorKind::SourceNotGitRepo => "Source is not a git repository"@,
            ErrorKind::InvalidSpecifierFormat => "Commit format is invalid"@,
            ErrorKind::BackendUnavailable => "The version-control backend could not be run"@,
            ErrorKind::BackendQueryFailed => "The version-control backend reported a failure"@,
            ErrorKind::MalformedDiffOutput => "A line of the change listing could not be read"@,
            ErrorKind::ConfigInvalid => "A pattern in the configuration is not a valid regular expression"@,
            ErrorKind::PathStripMismatch => "The matched path does not lie under its rule's pattern"@,
        }
    }

    pub fn as_str(&self) -> (text: &'static str)
        ensures
            text@ == self.message(),
    {
        match *self {
            ErrorKind::SourceNotExist => "Source folder does not exist",
            ErrorKind::DestinationInvalid => "The format of destination is invalid, cannot parse it",
            ErrorKind::ConfigNotExist => "Config file does not exist",
            ErrorKind::SourceNotGitRepo => "Source is not a git repository",
            ErrorKind::InvalidSpecifierFormat => "Commit format is invalid",
            ErrorKind::BackendUnavailable => "The version-control backend could not be run",
            ErrorKind::BackendQueryFailed => "The version-control backend reported a failure",
            ErrorKind::MalformedDiffOutput => "A line of the change listing could not be read",
            ErrorKind::ConfigInvalid => "A pattern in the configuration is not a valid regular expression",
            ErrorKind::PathStripMismatch => "The matched path does not lie under its rule's pattern",
        }
    }
}

/// Any failure of a run: the caller's I/O, the configuration's JSON, or one
/// of the library's own kinds.
#[derive(Debug)]
pub enum GsyncError {
    Io(std::io::Error),
    Custom(ErrorKind),
    Serde(serde_json::Error),
}

impl GsyncError {
    pub fn custom(kind: ErrorKind) -> (error: Self)
        ensures
            error == GsyncError::Custom(kind),
    {
        GsyncError::Custom(kind)
    }

    pub fn io(error: std::io::Error) -> (wrapped: Self)
        ensures
            wrapped == GsyncError::Io(error),
    {
        GsyncError::Io(error)
    }
}

impl From<ErrorKind> for GsyncError {
    fn from(kind: ErrorKind) -> (error: Self) {
        GsyncError::Custom(kind)
    }
}

impl vstd::std_specs::convert::FromSpecImpl<ErrorKind> for GsyncError {
    open spec fn obeys_from_spec() -> bool {
        true
    }

    open spec fn from_spec(kind: ErrorKind) -> Self {
        GsyncError::Custom(kind)
    }
}

impl From<std::io::Error> for GsyncError {
    fn from(err: std::io::Error) -> (error: Self) {
        GsyncError::Io(err)
    }
}

impl vstd::std_specs::convert::FromSpecImpl<std::io::Error> for GsyncError {
    open spec fn obeys_from_spec() -> bool {
        true
    }

    open spec fn from_spec(err: std::io::Error) -> Self {
        GsyncError::Io(err)
    }
}

impl From<serde_json::Error> for GsyncError {
    fn from(error: serde_json::Error) -> (wrapped: Self) {
        GsyncError::Serde(error)
    }
}

impl vstd::std_specs::convert::FromSpecImpl<serde_json::Error> for GsyncError {
    open spec fn obeys_from_spec() -> bool {
        true
    }

    open spec fn from_spec(error: serde_json::Error) -> Self {
        GsyncError::Serde(error)
    }
}

} // verus!
