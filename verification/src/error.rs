//! The error taxonomy a download surfaces: probe, transport, and filesystem
//! failures, each reported verbatim as the first error encountered.

use vstd::prelude::*;

verus! {

/// Why a download failed. The engine does not distinguish retryable from
/// fatal errors; the first one encountered halts the operation.
#[derive(Clone, Debug, PartialEq, Eq)]
pub enum DownloadError {
    /// The probe response carried no content-length, or one that does not
    /// parse as an unsigned 64-bit byte count.
    MissingContentLength,
    /// A network failure on the probe or on a fetch, with its message.
    Transport(String),
    /// A filesystem failure while creating, pre-sizing, seeking, writing or
    /// flushing the output file, with its message.
    Io(String),
}

impl DownloadError {
    /// A short human-readable description of the error.
    pub fn message(&self) -> (r: String)
        ensures
            self is MissingContentLength ==> r@ == "Failed to get content length"@,
            self is Transport ==> r@ == self->Transport_0@,
            self is Io ==> r@ == self->Io_0@,
    {
        match self {
            DownloadError::MissingContentLength => "Failed to get content length".to_owned(),
            DownloadError::Transport(m) => m.clone(),
            DownloadError::Io(m) => m.clone(),
        }
    }
}

} // verus!
