//! The reader builder: a fluent interface that collects configuration,
//! validates it, classifies the source, and assembles a `ReaderEngine`.
//!
//! The engine it builds starts in its created state: the host then feeds
//! bytes and calls `read_headers` to establish the header row. An in-memory
//! source needs no feeding; its bytes are placed in the engine's buffer at
//! build time and the input is already complete.

use vstd::prelude::*;
use crate::Trim;
use crate::config::{spec_default_config, ReaderConfig, ResultType};
use crate::engine::{EngineState, ReaderEngine};
use crate::errors::{ConfigError, ReaderError};
use crate::source::{resolve_source, spec_resolve, SourceDescriptor};
use crate::tokenizer::is_row_term;

verus! {

/// Builder for configuring and creating a `ReaderEngine`.
#[derive(Debug)]
pub struct RecordReaderBuilder {
    pub to_read: SourceDescriptor,
    pub config: ReaderConfig,
    pub result_type: ResultType,
}

impl RecordReaderBuilder {
    /// A builder over the given input descriptor, with default settings and
    /// map-shaped records.
    pub fn new(to_read: SourceDescriptor) -> (r: Self)
        ensures
            r.to_read == to_read,
            r.config == spec_default_config(),
            r.result_type == ResultType::Hash,
    {
        RecordReaderBuilder {
            to_read,
            config: ReaderConfig::new(),
            result_type: ResultType::Hash,
        }
    }

    /// Sets whether the input's first row names the columns.
    pub fn has_headers(self, has_headers: bool) -> (r: Self)
        ensures
            r.config == (ReaderConfig { has_headers, ..self.config }),
            r.to_read == self.to_read,
            r.result_type == self.result_type,
    {
        let mut b = self;
        b.config.has_headers = has_headers;
        b
    }

    /// Sets the field separator byte.
    pub fn delimiter(self, delimiter: u8) -> (r: Self)
        ensures
            r.config == (ReaderConfig { delimiter, ..self.config }),
            r.to_read == self.to_read,
            r.result_type == self.result_type,
    {
        let mut b = self;
        b.config.delimiter = delimiter;
        b
    }

    /// Sets the quote byte.
    pub fn quote_char(self, quote_char: u8) -> (r: Self)
        ensures
            r.config == (ReaderConfig { quote_char, ..self.config }),
            r.to_read == self.to_read,
            r.result_type == self.result_type,
    {
        let mut b = self;
        b.config.quote_char = quote_char;
        b
    }

    /// Sets the exact text that reads as null.
    pub fn null_string(self, null_string: Option<Vec<u8>>) -> (r: Self)
        ensures
            r.config == (ReaderConfig { null_string, ..self.config }),
            r.to_read == self.to_read,
            r.result_type == self.result_type,
    {
        let mut b = self;
        b.config.null_string = null_string;
        b
    }

    /// Sets whether rows may be shorter or longer than the header row.
    pub fn flexible(self, flexible: bool) -> (r: Self)
        ensures
            r.config == (ReaderConfig { flexible, ..self.config }),
            r.to_read == self.to_read,
            r.result_type == self.result_type,
    {
        let mut b = self;
        b.config.flexible = flexible;
        b
    }

    /// Sets the fill text for missing columns of a flexible short row.
    pub fn flexible_default(self, flexible_default: Option<Vec<u8>>) -> (r: Self)
        ensures
            r.config == (ReaderConfig { flexible_default, ..self.config }),
            r.to_read == self.to_read,
            r.result_type == self.result_type,
    {
        let mut b = self;
        b.config.flexible_default = flexible_default;
        b
    }

    /// Sets the whitespace-trimming policy.
    pub fn trim(self, trim: Trim) -> (r: Self)
        ensures
            r.config == (ReaderConfig { trim, ..self.config }),
            r.to_read == self.to_read,
            r.result_type == self.result_type,
    {
        let mut b = self;
        b.config.trim = trim;
        b
    }

    /// Sets whether NUL bytes are stripped from headers and fields.
    pub fn ignore_null_bytes(self, ignore_null_bytes: bool) -> (r: Self)
        ensures
            r.config == (ReaderConfig { ignore_null_bytes, ..self.config }),
            r.to_read == self.to_read,
            r.result_type == self.result_type,
    {
        let mut b = self;
        b.config.ignore_null_bytes = ignore_null_bytes;
        b
    }

    /// Sets whether invalid text is repaired instead of failing a row.
    pub fn lossy(self, lossy: bool) -> (r: Self)
        ensures
            r.config == (ReaderConfig { lossy, ..self.config }),
            r.to_read == self.to_read,
            r.result_type == self.result_type,
    {
        let mut b = self;
        b.config.lossy = lossy;
        b
    }

    /// Sets the bound of the worker channel.
    pub fn channel_capacity(self, channel_capacity: usize) -> (r: Self)
        ensures
            r.config == (ReaderConfig { channel_capacity, ..self.config }),
            r.to_read == self.to_read,
            r.result_type == self.result_type,
    {
        let mut b = self;
        b.config.channel_capacity = channel_capacity;
        b
    }

    /// Sets the record shape the consumer will receive.
    pub fn result_type(self, result_type: ResultType) -> (r: Self)
        ensures
            r.result_type == result_type,
            r.config == self.config,
            r.to_read == self.to_read,
    {
        let mut b = self;
        b.result_type = result_type;
        b
    }

    /// Validates the configuration, classifies the source, and assembles the
    /// engine in its created state. Succeeds exactly when the configuration
    /// is acceptable and the descriptor resolves.
    pub fn build(self) -> (r: Result<ReaderEngine, ReaderError>)
        ensures
            match r {
                Ok(engine) => {
                    &&& self.config.valid()
                    &&& spec_resolve(&self.to_read) is Ok
                    &&& engine.wf()
                    &&& engine.config == self.config
                    &&& engine.result_type == self.result_type
                    &&& Ok::<_, crate::errors::SourceError>(engine.source) == spec_resolve(
                        &self.to_read,
                    )
                    &&& engine.state is Created
                    &&& engine.headers@.len() == 0
                    &&& engine.pos == 0
                    &&& match self.to_read {
                        SourceDescriptor::InMemoryBytes { data } => engine.buf@ == data@
                            && engine.eof,
                        _ => engine.buf@.len() == 0 && !engine.eof,
                    }
                },
                Err(e) => match e {
                    ReaderError::Config(ce) => !self.config.valid() && (match ce {
                        ConfigError::DelimiterEqualsQuote => self.config.delimiter
                            == self.config.quote_char,
                        ConfigError::DelimiterIsTerminator => is_row_term(
                            self.config.delimiter,
                        ),
                        ConfigError::QuoteIsTerminator => is_row_term(self.config.quote_char),
                        ConfigError::DefaultWithoutFlexible => self.config.flexible_default
                            is Some && !self.config.flexible,
                        ConfigError::ZeroCapacity => self.config.channel_capacity == 0,
                    }),
                    ReaderError::Source(se) => self.config.valid() && spec_resolve(
                        &self.to_read,
                    ) == Err::<crate::source::SourceInfo, _>(se),
                    _ => false,
                },
            },
    {
        match self.config.validate() {
            Err(ce) => {
                return Err(ReaderError::Config(ce));
            },
            _ => {},
        }
        let info = match resolve_source(&self.to_read) {
            Ok(info) => info,
            Err(se) => {
                return Err(ReaderError::Source(se));
            },
        };
        let (buf, eof): (Vec<u8>, bool) = match self.to_read {
            SourceDescriptor::InMemoryBytes { data } => (data, true),
            _ => (Vec::new(), false),
        };
        Ok(
            ReaderEngine {
                config: self.config,
                result_type: self.result_type,
                source: info,
                state: EngineState::Created,
                buf,
                pos: 0,
                eof,
                headers: Vec::new(),
            },
        )
    }
}

} // verus!
