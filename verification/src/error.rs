//! Errors of the engine, scoped per add-on: a failure while resolving one
//! add-on never aborts its siblings, so every failure is carried as a value
//! with a human-readable cause chain.

use vstd::prelude::*;

verus! {

/// The class a failure belongs to.
#[derive(Clone, Copy, Debug, PartialEq, Eq, Structural)]
pub enum ErrorKind {
    /// An I/O failure, surfaced after retry exhaustion.
    Filesystem,
    /// An unreadable or malformed manifest, or a failed fingerprint
    /// computation.
    Parse,
    /// A remote resolution failure: not found, invalid identifier or URL,
    /// transport failure during identity resolution.
    Repository,
    /// A transport-layer failure during a package fetch.
    Download,
}

/// A failure, with its class, its own message, and the messages of the
/// failures underneath it.
#[derive(Debug)]
pub struct Error {
    pub kind: ErrorKind,
    pub message: String,
    pub causes: Vec<String>,
}

impl Error {
    /// An error with no underlying causes.
    pub fn new(kind: ErrorKind, message: String) -> (r: Error)
        ensures
            r.kind == kind,
            r.message == message,
            r.causes@ =~= Seq::<String>::empty(),
    {
        Error { kind, message, causes: Vec::new() }
    }
}

/// Log any errors: the lines to hand to the logger, the error's own message
/// first and one line per underlying cause after it.
pub fn log_error(error: &Error) -> (lines: Vec<String>)
    ensures
        lines@.len() == 1 + error.causes@.len(),
        lines@[0]@ == error.message@,
        forall|i: int|
            0 <= i < error.causes@.len() ==> #[trigger] lines@[i + 1]@ == "caused by: "@
                + error.causes@[i]@,
{
    let mut lines: Vec<String> = Vec::new();
    lines.push(error.message.clone());
    let n = error.causes.len();
    let mut i: usize = 0;
    while i < n
        invariant
            n == error.causes@.len(),
            i <= n,
            lines@.len() == 1 + i,
            lines@[0]@ == error.message@,
            forall|j: int|
                0 <= j < i ==> #[trigger] lines@[j + 1]@ == "caused by: "@ + error.causes@[j]@,
        decreases n - i,
    {
        let mut line = "caused by: ".to_owned();
        line.append(error.causes[i].as_str());
        lines.push(line);
        i = i + 1;
    }
    lines
}

} // verus!
