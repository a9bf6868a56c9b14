//! The two ways in which start-up can fail.

use vstd::prelude::*;
use vstd::string::StringExecFns;

verus! {

/// Why the store could not be brought up. Each variant carries the detail
/// that goes to the log.
#[derive(Debug, PartialEq, Eq)]
pub enum DatabaseError {
    /// The store could not be reached. Start-up tries again.
    ConnectionError(String),
    /// A step failed against a store that was reached. Start-up gives up.
    InitializationError(String),
}

/// The detail of a failure: `prefix` followed by the cause where the cause
/// may be shown, `terse` alone where it may not.
pub open spec fn failure_detail(
    prefix: Seq<char>,
    terse: Seq<char>,
    cause: Seq<char>,
    verbose: bool,
) -> Seq<char> {
    if verbose {
        prefix + cause
    } else {
        terse
    }
}

fn detail_text(prefix: &str, terse: &str, cause: &str, verbose: bool) -> (text: String)
    ensures
        text@ == failure_detail(prefix@, terse@, cause@, verbose),
{
    if verbose {
        let mut text = prefix.to_owned();
        text.append(cause);
        text
    } else {
        terse.to_owned()
    }
}

impl DatabaseError {
    /// The detail that the error carries.
    pub open spec fn detail(self) -> Seq<char> {
        match self {
            DatabaseError::ConnectionError(detail) => detail@,
            DatabaseError::InitializationError(detail) => detail@,
        }
    }

    /// The message that is shown for the error. It names the kind of failure
    /// and leaves the detail out.
    pub open spec fn message_text(self) -> Seq<char> {
        match self {
            DatabaseError::ConnectionError(_) => "Database connection error occurred"@,
            DatabaseError::InitializationError(_) => "Database initialization error occurred"@,
        }
    }

    /// Whether start-up may try again after this error.
    pub open spec fn is_transient(self) -> bool {
        self is ConnectionError
    }

    pub fn message(&self) -> (text: String)
        ensures
            text@ == self.message_text(),
    {
        match self {
            DatabaseError::ConnectionError(_) => "Database connection error occurred".to_owned(),
            DatabaseError::InitializationError(_) => "Database initialization error occurred"
                .to_owned(),
        }
    }

    /// Whether start-up may try again after this error: a connection that
    /// failed is tried again, a failed initialization is final.
    pub fn retryable(&self) -> (retry: bool)
        ensures
            retry == self.is_transient(),
    {
        match self {
            DatabaseError::ConnectionError(_) => true,
            DatabaseError::InitializationError(_) => false,
        }
    }

    /// The error for a connection setting that is missing from the
    /// environment.
    pub fn missing_setting(cause: &str) -> (error: DatabaseError)
        ensures
            error is ConnectionError,
            error.detail() == "Environment variable error: "@ + cause@,
    {
        DatabaseError::ConnectionError(detail_text("Environment variable error: ", "", cause, true))
    }

    /// The error for an acquisition attempt that failed. The cause is part of
    /// the detail only where `verbose` is set.
    pub fn connection_failed(cause: &str, verbose: bool) -> (error: DatabaseError)
        ensures
            error is ConnectionError,
            error.detail() == failure_detail(
                "Failed to connect: "@,
                "Connection error"@,
                cause@,
                verbose,
            ),
    {
        DatabaseError::ConnectionError(
            detail_text("Failed to connect: ", "Connection error", cause, verbose),
        )
    }

    /// The error for a step that failed. The cause is part of the detail only
    /// where `verbose` is set.
    pub fn initialization_failed(cause: &str, verbose: bool) -> (error: DatabaseError)
        ensures
            error is InitializationError,
            error.detail() == failure_detail(
                "Failed to initialize: "@,
                "Initialization error"@,
                cause@,
                verbose,
            ),
    {
        DatabaseError::InitializationError(
            detail_text("Failed to initialize: ", "Initialization error", cause, verbose),
        )
    }
}

} // verus!
