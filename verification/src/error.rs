//! The error taxonomy of the library.
//!
//! Per-item failures inside the pipeline are logged and dropped by the
//! caller; whole-run failures are surfaced through these values.

use vstd::prelude::*;

verus! {

/// Everything that can go wrong during an update or install run.
#[derive(Clone, Debug, PartialEq, Eq, Structural)]
pub enum UpdateError {
    /// The configuration misses a required field.
    ConfigInvalid,
    /// A connect or TLS failure while talking to a server.
    Network,
    /// A terminal response with a status outside the 2xx/3xx classes.
    HttpStatus(u16),
    /// More redirect hops than the fetcher is willing to follow.
    RedirectLoop,
    /// A vendor index that the XML parser refused.
    XmlParse,
    /// A file-system failure while materializing a download.
    IoError,
    /// A failure while opening, migrating or writing the database.
    DatabaseError,
    /// A path that is not valid UTF-8.
    Encoding,
    /// A null pointer handed across the foreign interface.
    NullArgument,
    /// The worker thread crashed; its result is lost.
    WorkerPanic,
    /// The result of a job was asked for a second time.
    AlreadyDrained,
}

impl UpdateError {
    /// A short, fixed description of the error, for logs and callers.
    pub fn describe(&self) -> (r: String)
        ensures
            r@.len() > 0,
    {
        let s: &str = match self {
            UpdateError::ConfigInvalid => "configuration is missing a required field",
            UpdateError::Network => "network or TLS failure",
            UpdateError::HttpStatus(_) => "unexpected terminal HTTP status",
            UpdateError::RedirectLoop => "too many redirect hops",
            UpdateError::XmlParse => "vendor index could not be parsed",
            UpdateError::IoError => "file system failure",
            UpdateError::DatabaseError => "database failure",
            UpdateError::Encoding => "path is not valid UTF-8",
            UpdateError::NullArgument => "null argument",
            UpdateError::WorkerPanic => "worker thread panicked",
            UpdateError::AlreadyDrained => "job result already taken",
        };
        proof {
            reveal_strlit("configuration is missing a required field");
            reveal_strlit("network or TLS failure");
            reveal_strlit("unexpected terminal HTTP status");
            reveal_strlit("too many redirect hops");
            reveal_strlit("vendor index could not be parsed");
            reveal_strlit("file system failure");
            reveal_strlit("database failure");
            reveal_strlit("path is not valid UTF-8");
            reveal_strlit("null argument");
            reveal_strlit("worker thread panicked");
            reveal_strlit("job result already taken");
        }
        s.to_owned()
    }
}

} // verus!
