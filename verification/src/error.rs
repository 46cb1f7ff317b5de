//! The ways in which producing a quote can fail.

use vstd::prelude::*;

verus! {

/// Why no quote was produced.
#[derive(Debug, Clone, Copy, PartialEq, Eq, Structural)]
pub enum QuoteError {
    /// The subtitle file could not be opened or read.
    SourceUnreadable,
    /// The cache file exists but could not be opened.
    CacheUnreadable,
    /// The content of the cache file is not a sequence of records.
    CacheCorrupt,
    /// The cache file could not be created, or was created and could not
    /// be written.
    CacheUnwritable { created: bool },
    /// No key of the dictionary starts with an uppercase character.
    EmptyCorpus,
    /// A chain of tokens holds no token at all.
    NoSampleableSuccessor,
}

impl QuoteError {
    /// The line shown to the user for this failure.
    pub fn message(&self) -> (text: String)
        ensures
            text@ == match *self {
                QuoteError::SourceUnreadable => "couldn't open subtitle file"@,
                QuoteError::CacheUnreadable => "couldn't open cached file"@,
                QuoteError::CacheCorrupt => "couldn't deserialize cached file"@,
                QuoteError::CacheUnwritable { created: false } => "couldn't create cache file"@,
                QuoteError::CacheUnwritable { created: true } => "couldn't write to cache file"@,
                QuoteError::EmptyCorpus => "couldn't determine the quote starting point"@,
                QuoteError::NoSampleableSuccessor => "couldn't build a random quote"@,
            },
    {
        match self {
            QuoteError::SourceUnreadable => String::from_str("couldn't open subtitle file"),
            QuoteError::CacheUnreadable => String::from_str("couldn't open cached file"),
            QuoteError::CacheCorrupt => String::from_str("couldn't deserialize cached file"),
            QuoteError::CacheUnwritable { created: false } => String::from_str(
                "couldn't create cache file",
            ),
            QuoteError::CacheUnwritable { created: true } => String::from_str(
                "couldn't write to cache file",
            ),
            QuoteError::EmptyCorpus => String::from_str(
                "couldn't determine the quote starting point",
            ),
            QuoteError::NoSampleableSuccessor => String::from_str("couldn't build a random quote"),
        }
    }
}

} // verus!
