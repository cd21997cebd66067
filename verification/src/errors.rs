use vstd::prelude::*;

verus! {

/// Why a download run failed. Every error is fatal to the whole run: there is
/// no retry, no local recovery and no partial-result salvage.
#[derive(Clone, Copy, Debug, PartialEq, Eq, Structural)]
pub enum DownloadError {
    /// The remote resource's length could not be determined.
    SizeUnavailable,
    /// No output path was given and none could be derived from the URL.
    NoFilenameInferred,
    /// Connection, timeout or transport failure on a request.
    NetworkError,
    /// Local file create, read or write failure.
    IoError,
    /// A numeric header was malformed.
    ParseError,
}

impl DownloadError {
    /// The message printed for this error on the error stream.
    pub open spec fn spec_message(self) -> Seq<char> {
        match self {
            DownloadError::SizeUnavailable => "could not determine the size of the remote resource"@,
            DownloadError::NoFilenameInferred => "no output file name given and none could be derived from the URL"@,
            DownloadError::NetworkError => "network request failed"@,
            DownloadError::IoError => "local file operation failed"@,
            DownloadError::ParseError => "malformed numeric header"@,
        }
    }

    /// Human-readable description, for the error stream.
    pub fn message(&self) -> (m: &'static str)
        ensures
            m@ == self.spec_message(),
    {
        match self {
            DownloadError::SizeUnavailable => "could not determine the size of the remote resource",
            DownloadError::NoFilenameInferred => "no output file name given and none could be derived from the URL",
            DownloadError::NetworkError => "network request failed",
            DownloadError::IoError => "local file operation failed",
            DownloadError::ParseError => "malformed numeric header",
        }
    }
}

} // verus!
