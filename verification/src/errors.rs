//! The error taxonomy: configuration, source and header failures surface at
//! build time; encoding and record-syntax failures end the record sequence.

use vstd::prelude::*;
use crate::interner::CacheError;

verus! {

/// An invalid configuration, refused before an engine is built.
#[derive(Debug, Clone, Copy, PartialEq, Eq, Structural)]
pub enum ConfigError {
    /// Delimiter and quote are the same byte.
    DelimiterEqualsQuote,
    /// The delimiter is a row terminator (CR or LF).
    DelimiterIsTerminator,
    /// The quote is a row terminator (CR or LF).
    QuoteIsTerminator,
    /// A flexible fill value is set while flexible mode is off.
    DefaultWithoutFlexible,
    /// The bounded channel would hold no records.
    ZeroCapacity,
}

/// Failure classifying or preparing a byte source.
#[derive(Debug, Clone, Copy, PartialEq, Eq, Structural)]
pub enum SourceError {
    /// The source's bytes cannot be opened or read (reported by the host or
    /// by the decompressor).
    Open,
    /// A caller-supplied descriptor that is not valid.
    InvalidHandle(i32),
    /// A source kind this engine cannot drive.
    Unsupported,
}

/// Why the header row could not be established.
#[derive(Debug, Clone, Copy, PartialEq, Eq, Structural)]
pub enum HeaderIssue {
    /// Malformed quoting in the first row.
    Syntax,
    /// Invalid text in the first row while `lossy` is off.
    Encoding,
    /// The interner refused the header names.
    Intern(CacheError),
}

/// What a malformed record looked like.
#[derive(Debug, Clone, Copy, PartialEq, Eq, Structural)]
pub enum SyntaxIssue {
    /// An unterminated quote, or a stray byte after a closing quote.
    BadQuote,
    /// A row's field count differs from the header count while flexible mode
    /// is off.
    FieldCount { got: usize, want: usize },
}

/// Any failure this reader reports. Configuration, source and header errors
/// are synchronous and prevent engine creation; encoding and record-syntax
/// errors are the terminal item of the record sequence.
#[derive(Debug, Clone, Copy, PartialEq, Eq, Structural)]
pub enum ReaderError {
    Config(ConfigError),
    Source(SourceError),
    Header(HeaderIssue),
    /// Invalid text in a record while `lossy` is off.
    Encoding,
    RecordSyntax(SyntaxIssue),
}

} // verus!
