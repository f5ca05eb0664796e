//! The failures that acquiring a title or a page can end in.

use vstd::prelude::*;

verus! {

/// A failure as the contracts see it.
pub enum SourceErrorView {
    /// No page answers to the title, or the list does not exist.
    NotFound { message: Seq<char> },
    /// The list holds no title.
    Empty,
    /// The request failed on the way, or its answer could not be decoded.
    TransportFailure { message: Seq<char> },
    /// The directory or the file could not be read.
    StorageFailure { message: Seq<char> },
}

impl SourceErrorView {
    /// What the failure says to a reader.
    pub open spec fn message(self) -> Seq<char> {
        match self {
            SourceErrorView::NotFound { message } => message,
            SourceErrorView::Empty => "The list is empty."@,
            SourceErrorView::TransportFailure { message } => message,
            SourceErrorView::StorageFailure { message } => message,
        }
    }
}

/// A failure. It is handed to the caller as a value; nothing is retried, and
/// no partial result comes with it.
#[derive(Debug, Clone, PartialEq, Eq)]
pub enum SourceError {
    /// No page answers to the title, or the list does not exist.
    NotFound { message: String },
    /// The list holds no title.
    Empty,
    /// The request failed on the way, or its answer could not be decoded.
    TransportFailure { message: String },
    /// The directory or the file could not be read.
    StorageFailure { message: String },
}

impl View for SourceError {
    type V = SourceErrorView;

    open spec fn view(&self) -> SourceErrorView {
        match self {
            SourceError::NotFound { message } => SourceErrorView::NotFound { message: message@ },
            SourceError::Empty => SourceErrorView::Empty,
            SourceError::TransportFailure { message } => SourceErrorView::TransportFailure {
                message: message@,
            },
            SourceError::StorageFailure { message } => SourceErrorView::StorageFailure {
                message: message@,
            },
        }
    }
}

impl SourceError {
    /// The failure of reading a list: not found where the file is missing,
    /// a failure of storage for any other cause. `message` says what the
    /// cause was.
    pub fn reading_list(missing: bool, message: String) -> (failure: SourceError)
        ensures
            missing ==> failure@ == (SourceErrorView::NotFound { message: message@ }),
            !missing ==> failure@ == (SourceErrorView::StorageFailure { message: message@ }),
    {
        if missing {
            SourceError::NotFound { message }
        } else {
            SourceError::StorageFailure { message }
        }
    }

    /// What the failure says to a reader: the fixed sentence of an empty
    /// list, else the message that the failure carries.
    pub fn message(&self) -> (text: String)
        ensures
            text@ == self@.message(),
    {
        match self {
            SourceError::NotFound { message } => message.clone(),
            SourceError::Empty => "The list is empty.".to_owned(),
            SourceError::TransportFailure { message } => message.clone(),
            SourceError::StorageFailure { message } => message.clone(),
        }
    }
}

} // verus!
