//! The error taxonomy of the library. Errors arising in outside code
//! are carried as their message text.

use vstd::prelude::*;

use crate::strutil::concat2;

verus! {

/// Everything that can go wrong: configuration resolution, connection
/// and authentication, per-file transfers, and task bookkeeping.
#[derive(Clone, Debug)]
pub enum AstraError {
    SftpConnectionError(String),
    AuthenticationError(String),
    FileOperationError(String),
    ConfigurationError(String),
    IoError(String),
    SystemError(String),
    TaskError(String),
}

/// Mathematical view of an `AstraError`.
pub ghost enum AstraErrorV {
    SftpConnectionError(Seq<char>),
    AuthenticationError(Seq<char>),
    FileOperationError(Seq<char>),
    ConfigurationError(Seq<char>),
    IoError(Seq<char>),
    SystemError(Seq<char>),
    TaskError(Seq<char>),
}

impl View for AstraError {
    type V = AstraErrorV;

    open spec fn view(&self) -> AstraErrorV {
        match self {
            AstraError::SftpConnectionError(s) => AstraErrorV::SftpConnectionError(s@),
            AstraError::AuthenticationError(s) => AstraErrorV::AuthenticationError(s@),
            AstraError::FileOperationError(s) => AstraErrorV::FileOperationError(s@),
            AstraError::ConfigurationError(s) => AstraErrorV::ConfigurationError(s@),
            AstraError::IoError(s) => AstraErrorV::IoError(s@),
            AstraError::SystemError(s) => AstraErrorV::SystemError(s@),
            AstraError::TaskError(s) => AstraErrorV::TaskError(s@),
        }
    }
}

/// The display text of each error, prefixed by its category.
pub open spec fn spec_error_message(e: AstraErrorV) -> Seq<char> {
    match e {
        AstraErrorV::SftpConnectionError(s) => "SFTP connection error: "@ + s,
        AstraErrorV::AuthenticationError(s) => "Authentication error: "@ + s,
        AstraErrorV::FileOperationError(s) => "File operation error: "@ + s,
        AstraErrorV::ConfigurationError(s) => "Configuration error: "@ + s,
        AstraErrorV::IoError(s) => "IO error: "@ + s,
        AstraErrorV::SystemError(s) => "System error: "@ + s,
        AstraErrorV::TaskError(s) => "Task error: "@ + s,
    }
}

impl AstraError {
    /// The error's display text.
    pub fn message(&self) -> (r: String)
        ensures
            r@ == spec_error_message(self@),
    {
        match self {
            AstraError::SftpConnectionError(s) => concat2("SFTP connection error: ",
                s.as_str()),
            AstraError::AuthenticationError(s) => concat2("Authentication error: ",
                s.as_str()),
            AstraError::FileOperationError(s) => concat2("File operation error: ", s.as_str()),
            AstraError::ConfigurationError(s) => concat2("Configuration error: ", s.as_str()),
            AstraError::IoError(s) => concat2("IO error: ", s.as_str()),
            AstraError::SystemError(s) => concat2("System error: ", s.as_str()),
            AstraError::TaskError(s) => concat2("Task error: ", s.as_str()),
        }
    }
}

/// Result type used throughout the library.
pub type AstraResult<T> = Result<T, AstraError>;

} // verus!

