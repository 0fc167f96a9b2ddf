//! The errors that archive operations report.

use vstd::prelude::*;

verus! {

/// Why an archive operation stopped.
#[derive(Debug)]
pub enum ArchiveError {
    /// The caller's request cannot be carried out as given.
    InvalidInput(String),
    /// The request asks for something the selected format cannot do.
    UnsupportedOption(String),
    /// A configured or built-in limit was passed.
    LimitExceeded(String),
    /// The native engine reported a failure.
    SevenZip(String),
    /// The native library cannot be used.
    LibraryUnavailable(String),
    /// The native library lacks a required export.
    MissingSymbol(String),
    /// A password is needed, or the one given is wrong.
    PasswordRequired,
    /// The user cancelled.
    Cancelled,
    /// A file operation failed at `path`.
    Io { path: String, message: String },
    /// A link or mount point stands where output would go.
    ReparsePoint(String),
    /// An entry's path would leave the destination.
    UnsafeEntryPath(String),
    /// An entry is neither a file nor a directory.
    UnsafeEntryType(String),
    /// The archive's contents are not consistent.
    InvalidArchive(String),
    /// A worker failed.
    Worker(String),
}

/// An [`ArchiveError`] with its texts as sequences of characters.
pub enum ErrorView {
    InvalidInput(Seq<char>),
    UnsupportedOption(Seq<char>),
    LimitExceeded(Seq<char>),
    SevenZip(Seq<char>),
    LibraryUnavailable(Seq<char>),
    MissingSymbol(Seq<char>),
    PasswordRequired,
    Cancelled,
    Io(Seq<char>, Seq<char>),
    ReparsePoint(Seq<char>),
    UnsafeEntryPath(Seq<char>),
    UnsafeEntryType(Seq<char>),
    InvalidArchive(Seq<char>),
    Worker(Seq<char>),
}

impl View for ArchiveError {
    type V = ErrorView;

    open spec fn view(&self) -> ErrorView {
        match *self {
            ArchiveError::InvalidInput(text) => ErrorView::InvalidInput(text@),
            ArchiveError::UnsupportedOption(text) => ErrorView::UnsupportedOption(text@),
            ArchiveError::LimitExceeded(text) => ErrorView::LimitExceeded(text@),
            ArchiveError::SevenZip(text) => ErrorView::SevenZip(text@),
            ArchiveError::LibraryUnavailable(text) => ErrorView::LibraryUnavailable(text@),
            ArchiveError::MissingSymbol(text) => ErrorView::MissingSymbol(text@),
            ArchiveError::PasswordRequired => ErrorView::PasswordRequired,
            ArchiveError::Cancelled => ErrorView::Cancelled,
            ArchiveError::Io { path, message } => ErrorView::Io(path@, message@),
            ArchiveError::ReparsePoint(text) => ErrorView::ReparsePoint(text@),
            ArchiveError::UnsafeEntryPath(text) => ErrorView::UnsafeEntryPath(text@),
            ArchiveError::UnsafeEntryType(text) => ErrorView::UnsafeEntryType(text@),
            ArchiveError::InvalidArchive(text) => ErrorView::InvalidArchive(text@),
            ArchiveError::Worker(text) => ErrorView::Worker(text@),
        }
    }
}

/// The result of an archive operation.
pub type ArchiveResult<T> = Result<T, ArchiveError>;

impl ArchiveError {
    /// The failure of a file operation at `path`.
    pub fn io(path: &str, message: &str) -> (error: ArchiveError)
        ensures
            error@ == ErrorView::Io(path@, message@),
    {
        ArchiveError::Io { path: path.to_owned(), message: message.to_owned() }
    }

    /// Whether the operation was cancelled.
    pub fn is_cancelled(&self) -> (cancelled: bool)
        ensures
            cancelled == (self@ == ErrorView::Cancelled),
    {
        match self {
            ArchiveError::Cancelled => true,
            _ => false,
        }
    }
}

} // verus!
