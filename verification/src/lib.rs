//! A verified CSV ingestion core: source classification, header interning,
//! byte-level row tokenization, field-to-record conversion, and a pull-driven
//! reader engine that a host program can run inline or behind a worker thread.

use vstd::prelude::*;

pub mod builder;
pub mod config;
pub mod engine;
pub mod errors;
pub mod interner;
pub mod laws;
pub mod parser;
pub mod record;
pub mod source;
pub mod text;
pub mod tokenizer;

pub use builder::RecordReaderBuilder;
pub use config::{ReaderConfig, ResultType};
pub use engine::{
    CloseAction, EngineState, HeaderOutcome, PullOutcome, ReadMode, ReaderEngine,
};
pub use errors::{ConfigError, HeaderIssue, ReaderError, SourceError, SyntaxIssue};
pub use interner::{CacheError, StringCache, StringCacheKey};
pub use record::{CowStr, CsvRecord, CsvRecordType};
pub use source::{
    materialize_compressed, Ownership, SourceDescriptor, SourceInfo, SourceKind,
};

verus! {

/// Trim policy: which parts of the input have surrounding ASCII whitespace
/// removed.
#[derive(Debug, Clone, Copy, PartialEq, Eq, Structural)]
pub enum Trim {
    /// Trim neither headers nor fields.
    Neither,
    Headers,
    Fields,
    All,
}

impl Trim {
    /// Whether header texts are trimmed under this policy.
    pub open spec fn spec_trims_headers(self) -> bool {
        self is Headers || self is All
    }

    /// Whether record fields are trimmed under this policy.
    pub open spec fn spec_trims_fields(self) -> bool {
        self is Fields || self is All
    }

    #[verifier::when_used_as_spec(spec_trims_headers)]
    pub fn trims_headers(self) -> (r: bool)
        ensures
            r == self.spec_trims_headers(),
    {
        matches!(self, Trim::Headers | Trim::All)
    }

    #[verifier::when_used_as_spec(spec_trims_fields)]
    pub fn trims_fields(self) -> (r: bool)
        ensures
            r == self.spec_trims_fields(),
    {
        matches!(self, Trim::Fields | Trim::All)
    }

    /// Parses the textual name of a trimming policy: `all`, `headers` or
    /// `fields`.
    pub fn from_name(s: &str) -> (r: Option<Trim>)
        ensures
            r == (if s@ == "all"@ {
                Some(Trim::All)
            } else if s@ == "headers"@ {
                Some(Trim::Headers)
            } else if s@ == "fields"@ {
                Some(Trim::Fields)
            } else {
                None::<Trim>
            }),
    {
        let owned: String = s.to_owned();
        let all_name: String = "all".to_owned();
        let headers_name: String = "headers".to_owned();
        let fields_name: String = "fields".to_owned();
        if owned == all_name {
            Some(Trim::All)
        } else if owned == headers_name {
            Some(Trim::Headers)
        } else if owned == fields_name {
            Some(Trim::Fields)
        } else {
            None
        }
    }
}

} // verus!
