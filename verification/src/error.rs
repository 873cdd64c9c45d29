//! The error taxonomy of the client-facing operations.

use vstd::prelude::*;
use vstd::string::StringExecFns;

verus! {

/// What can go wrong while resolving an identity, talking to the registry,
/// or keeping a PDS session.
#[derive(Debug, Clone, PartialEq, Eq)]
pub enum Error {
    DidDocumentHasNoPds,
    HandleInvalid,
    HandleResolutionFailed,
    LoggedIntoDifferentAccount(String),
    NeedToLogIn,
    NeedToLogInAgain,
    PdsAuthFailed,
    PdsAuthRefreshFailed,
    PdsServerKeyLookupFailed,
    PlcDirectoryRequestFailed,
    PlcDirectoryReturnedInvalidAuditLog,
    PlcDirectoryReturnedInvalidDidDocument,
    PlcDirectoryReturnedInvalidLogEntries,
    PlcDirectoryReturnedInvalidOperationLog,
    SessionSaveFailed,
    UnsupportedDidMethod(String),
}

/// The one-line rendering of an [`Error`].
pub open spec fn spec_error_message(e: Error) -> Seq<char> {
    match e {
        Error::DidDocumentHasNoPds =>
            "The user's DID document doesn't contain a services entry for a PDS"@,
        Error::HandleInvalid =>
            "The provided handle is invalid (it does not appear in the DID document it points to)"@,
        Error::HandleResolutionFailed => "Handle resolution failed"@,
        Error::LoggedIntoDifferentAccount(handle) => "Currently logged into "@ + handle@,
        Error::NeedToLogIn => "This operation requires authentication, please log in"@,
        Error::NeedToLogInAgain => "Session has expired, please log in again"@,
        Error::PdsAuthFailed => "Failed to authenticate to PDS"@,
        Error::PdsAuthRefreshFailed => "Failed to refresh PDS session"@,
        Error::PdsServerKeyLookupFailed => "Lookup of PDS server keys failed"@,
        Error::PlcDirectoryRequestFailed =>
            "An error occurred while talking to plc.directory"@,
        Error::PlcDirectoryReturnedInvalidAuditLog =>
            "plc.directory returned an invalid audit log"@,
        Error::PlcDirectoryReturnedInvalidDidDocument =>
            "plc.directory returned an invalid DID document"@,
        Error::PlcDirectoryReturnedInvalidLogEntries =>
            "plc.directory returned invalid log entries"@,
        Error::PlcDirectoryReturnedInvalidOperationLog =>
            "plc.directory returned an invalid operation log"@,
        Error::SessionSaveFailed => "Failed to save PDS session data"@,
        Error::UnsupportedDidMethod(method) => "Unsupported DID method "@ + method@
            + "; this tool only works with did:plc identities"@,
    }
}

impl Error {
    /// Renders this error as its one human line.
    pub fn message(&self) -> (r: String)
        ensures
            r@ == spec_error_message(*self),
    {
        match self {
            Error::DidDocumentHasNoPds => String::from_str(
                "The user's DID document doesn't contain a services entry for a PDS",
            ),
            Error::HandleInvalid => String::from_str(
                "The provided handle is invalid (it does not appear in the DID document it points to)",
            ),
            Error::HandleResolutionFailed => String::from_str("Handle resolution failed"),
            Error::LoggedIntoDifferentAccount(handle) => String::from_str(
                "Currently logged into ",
            ).concat(handle.as_str()),
            Error::NeedToLogIn => String::from_str(
                "This operation requires authentication, please log in",
            ),
            Error::NeedToLogInAgain => String::from_str(
                "Session has expired, please log in again",
            ),
            Error::PdsAuthFailed => String::from_str("Failed to authenticate to PDS"),
            Error::PdsAuthRefreshFailed => String::from_str("Failed to refresh PDS session"),
            Error::PdsServerKeyLookupFailed => String::from_str(
                "Lookup of PDS server keys failed",
            ),
            Error::PlcDirectoryRequestFailed => String::from_str(
                "An error occurred while talking to plc.directory",
            ),
            Error::PlcDirectoryReturnedInvalidAuditLog => String::from_str(
                "plc.directory returned an invalid audit log",
            ),
            Error::PlcDirectoryReturnedInvalidDidDocument => String::from_str(
                "plc.directory returned an invalid DID document",
            ),
            Error::PlcDirectoryReturnedInvalidLogEntries => String::from_str(
                "plc.directory returned invalid log entries",
            ),
            Error::PlcDirectoryReturnedInvalidOperationLog => String::from_str(
                "plc.directory returned an invalid operation log",
            ),
            Error::SessionSaveFailed => String::from_str("Failed to save PDS session data"),
            Error::UnsupportedDidMethod(method) => String::from_str(
                "Unsupported DID method ",
            ).concat(method.as_str()).concat("; this tool only works with did:plc identities"),
        }
    }
}

} // verus!
