//! The closed set of failures a caller of the loader can observe.

use vstd::prelude::*;

verus! {

/// Why a batch gave its callers no result.
#[derive(Debug, Clone, Copy, PartialEq, Eq, Structural)]
pub enum LoadError {
    /// The bulk query against the backing store failed.
    BackingStore,
    /// A raw path could not be turned into a signed URL.
    Signing,
    /// The owning scope was torn down before the batch completed.
    Cancelled,
}

impl LoadError {
    /// The text of [`LoadError::message`].
    pub open spec fn message_text(self) -> Seq<char> {
        match self {
            LoadError::BackingStore => "the backing store could not be queried"@,
            LoadError::Signing => "a snapshot path could not be signed"@,
            LoadError::Cancelled => "the request was cancelled before the batch completed"@,
        }
    }

    /// What to tell the caller: one fixed sentence per kind of failure.
    pub fn message(&self) -> (text: String)
        ensures
            text@ == self.message_text(),
    {
        match self {
            LoadError::BackingStore => "the backing store could not be queried".to_owned(),
            LoadError::Signing => "a snapshot path could not be signed".to_owned(),
            LoadError::Cancelled => "the request was cancelled before the batch completed".to_owned(),
        }
    }
}

} // verus!
