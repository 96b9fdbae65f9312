//! The failures that resolving and running a pipeline can end in.

use vstd::prelude::*;
use vstd::string::StringExecFns;

use crate::ArchiveFormat;

verus! {

/// The error type of `std::io`, carried through as it is.
#[verifier::external_type_specification]
#[verifier::external_body]
pub struct ExIoError(std::io::Error);

#[derive(Debug)]
pub enum Error {
    /// A level string that is neither `auto` nor a single digit.
    InvalidCompressionLevel(String),
    /// A format string that names no format.
    InvalidCompressionFormat(String),
    /// More levels than formats were given.
    MissingCompressionFormat,
    /// A stage names a format that no packer exists for.
    UnsupportedFormat(ArchiveFormat),
    /// An entry below an input directory could not be read.
    WalkDir(std::io::Error),
    /// The archive file of a stage could not be created.
    CreateArchiveFile { source: std::io::Error, path: String },
    /// The archive of an earlier stage could not be removed.
    RemoveOldArchive { source: std::io::Error, path: String },
    /// The last archive could not be moved to the output path.
    MoveFinalArchive { source: std::io::Error, from: String, to: String },
    /// Writing the tar archive failed.
    TarPacker(std::io::Error),
}

/// An [`Error`] with its strings as character sequences. The causes handed
/// over from outside are kept as they are.
pub enum ErrorView {
    InvalidCompressionLevel(Seq<char>),
    InvalidCompressionFormat(Seq<char>),
    MissingCompressionFormat,
    UnsupportedFormat(ArchiveFormat),
    WalkDir(std::io::Error),
    CreateArchiveFile { source: std::io::Error, path: Seq<char> },
    RemoveOldArchive { source: std::io::Error, path: Seq<char> },
    MoveFinalArchive { source: std::io::Error, from: Seq<char>, to: Seq<char> },
    TarPacker(std::io::Error),
}

impl View for Error {
    type V = ErrorView;

    open spec fn view(&self) -> ErrorView {
        match self {
            Error::InvalidCompressionLevel(s) => ErrorView::InvalidCompressionLevel(s@),
            Error::InvalidCompressionFormat(s) => ErrorView::InvalidCompressionFormat(s@),
            Error::MissingCompressionFormat => ErrorView::MissingCompressionFormat,
            Error::UnsupportedFormat(format) => ErrorView::UnsupportedFormat(*format),
            Error::WalkDir(source) => ErrorView::WalkDir(*source),
            Error::CreateArchiveFile { source, path } => ErrorView::CreateArchiveFile {
                source: *source,
                path: path@,
            },
            Error::RemoveOldArchive { source, path } => ErrorView::RemoveOldArchive {
                source: *source,
                path: path@,
            },
            Error::MoveFinalArchive { source, from, to } => ErrorView::MoveFinalArchive {
                source: *source,
                from: from@,
                to: to@,
            },
            Error::TarPacker(source) => ErrorView::TarPacker(*source),
        }
    }
}

impl ErrorView {
    /// The cause that an error was handed from outside, if it has one.
    pub open spec fn cause(self) -> Option<std::io::Error> {
        match self {
            ErrorView::WalkDir(source) => Some(source),
            ErrorView::CreateArchiveFile { source, .. } => Some(source),
            ErrorView::RemoveOldArchive { source, .. } => Some(source),
            ErrorView::MoveFinalArchive { source, .. } => Some(source),
            ErrorView::TarPacker(source) => Some(source),
            _ => None,
        }
    }

    /// The message of an error, as shown to the user.
    pub open spec fn message(self) -> Seq<char> {
        match self {
            ErrorView::InvalidCompressionLevel(s) => "Invalid compression level '"@ + s + "'"@,
            ErrorView::InvalidCompressionFormat(s) => "Invalid compression format '"@ + s + "'"@,
            ErrorView::MissingCompressionFormat => "Missing compression format argument"@,
            ErrorView::UnsupportedFormat(format) => "Unsupported archive format '"@
                + format.spec_name() + "'"@,
            ErrorView::WalkDir(_) => "Walk Dir Error"@,
            ErrorView::CreateArchiveFile { path, .. } => "Could not create archive file '"@ + path
                + "'"@,
            ErrorView::RemoveOldArchive { path, .. } => "Could not remove old archive file '"@ + path
                + "'"@,
            ErrorView::MoveFinalArchive { from, to, .. } => "Could not move archive file '"@ + from
                + "' to '"@ + to + "'"@,
            ErrorView::TarPacker(_) => "Tar Packer Error"@,
        }
    }
}

impl Error {
    /// The message of this error.
    pub fn message(&self) -> (r: String)
        ensures
            r@ == self@.message(),
    {
        match self {
            Error::InvalidCompressionLevel(s) => quoted("Invalid compression level '", s.as_str()),
            Error::InvalidCompressionFormat(s) => quoted(
                "Invalid compression format '",
                s.as_str(),
            ),
            Error::MissingCompressionFormat => "Missing compression format argument".to_owned(),
            Error::UnsupportedFormat(format) => quoted(
                "Unsupported archive format '",
                format.name(),
            ),
            Error::WalkDir(_) => "Walk Dir Error".to_owned(),
            Error::CreateArchiveFile { source: _, path } => quoted(
                "Could not create archive file '",
                path.as_str(),
            ),
            Error::RemoveOldArchive { source: _, path } => quoted(
                "Could not remove old archive file '",
                path.as_str(),
            ),
            Error::MoveFinalArchive { source: _, from, to } => {
                let mut text = "Could not move archive file '".to_owned();
                text.append(from.as_str());
                text.append("' to '");
                text.append(to.as_str());
                text.append("'");
                text
            },
            Error::TarPacker(_) => "Tar Packer Error".to_owned(),
        }
    }
}

/// `prefix`, then `inner`, then a closing quote.
fn quoted(prefix: &str, inner: &str) -> (r: String)
    ensures
        r@ == prefix@ + inner@ + "'"@,
{
    let mut text = prefix.to_owned();
    text.append(inner);
    text.append("'");
    text
}

} // verus!
