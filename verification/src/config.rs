//! Reader configuration: the recognized options, their defaults, and the
//! validation that `build` applies.

use vstd::prelude::*;
use crate::Trim;
use crate::errors::ConfigError;
use crate::tokenizer::{is_row_term, sep_ok};

verus! {

/// Which shape the consumer asked each record to take.
#[derive(Debug, Clone, Copy, PartialEq, Eq, Structural)]
pub enum ResultType {
    /// A map from header handle to value.
    Hash,
    /// A list of values ordered by column.
    Array,
}

impl ResultType {
    /// Parses the textual name of a result shape: `hash` or `array`.
    pub fn from_str(s: &str) -> (r: Option<ResultType>)
        ensures
            r == (if s@ == "hash"@ {
                Some(ResultType::Hash)
            } else if s@ == "array"@ {
                Some(ResultType::Array)
            } else {
                None::<ResultType>
            }),
    {
        let owned: String = s.to_owned();
        let hash_name: String = "hash".to_owned();
        let array_name: String = "array".to_owned();
        if owned == hash_name {
            Some(ResultType::Hash)
        } else if owned == array_name {
            Some(ResultType::Array)
        } else {
            None
        }
    }
}

/// The recognized configuration options, with their defaults.
#[derive(Debug)]
pub struct ReaderConfig {
    /// Whether the first row names the columns (default true).
    pub has_headers: bool,
    /// Field separator (default `,`).
    pub delimiter: u8,
    /// Quote byte (default `"`).
    pub quote_char: u8,
    /// Exact text that reads as null, when set.
    pub null_string: Option<Vec<u8>>,
    /// Whether rows may be shorter or longer than the header row.
    pub flexible: bool,
    /// Fill text for missing columns of a flexible short row.
    pub flexible_default: Option<Vec<u8>>,
    /// Whitespace-trimming policy.
    pub trim: Trim,
    /// Whether NUL bytes are stripped from fields and headers.
    pub ignore_null_bytes: bool,
    /// Whether invalid text is repaired instead of failing the row.
    pub lossy: bool,
    /// Bound of the worker channel (default 1000).
    pub channel_capacity: usize,
}

/// The default configuration.
pub open spec fn spec_default_config() -> ReaderConfig {
    ReaderConfig {
        has_headers: true,
        delimiter: 44,
        quote_char: 34,
        null_string: None,
        flexible: false,
        flexible_default: None,
        trim: Trim::Neither,
        ignore_null_bytes: false,
        lossy: false,
        channel_capacity: 1000,
    }
}

impl ReaderConfig {
    /// The defaults every reader starts from.
    pub fn new() -> (r: ReaderConfig)
        ensures
            r == spec_default_config(),
    {
        ReaderConfig {
            has_headers: true,
            delimiter: 44,
            quote_char: 34,
            null_string: None,
            flexible: false,
            flexible_default: None,
            trim: Trim::Neither,
            ignore_null_bytes: false,
            lossy: false,
            channel_capacity: 1000,
        }
    }

    /// An acceptable configuration: separators usable by the tokenizer, a
    /// fill value only in flexible mode, and room in the channel.
    pub open spec fn valid(&self) -> bool {
        &&& sep_ok(self.delimiter, self.quote_char)
        &&& (self.flexible_default is Some ==> self.flexible)
        &&& self.channel_capacity > 0
    }

    /// Checks the configuration, reporting the first broken rule.
    pub fn validate(&self) -> (r: Result<(), ConfigError>)
        ensures
            r is Ok <==> self.valid(),
            match r {
                Ok(_) => true,
                Err(e) => match e {
                    ConfigError::DelimiterEqualsQuote => self.delimiter == self.quote_char,
                    ConfigError::DelimiterIsTerminator => is_row_term(self.delimiter),
                    ConfigError::QuoteIsTerminator => is_row_term(self.quote_char),
                    ConfigError::DefaultWithoutFlexible => self.flexible_default is Some
                        && !self.flexible,
                    ConfigError::ZeroCapacity => self.channel_capacity == 0,
                },
            },
    {
        if self.delimiter == self.quote_char {
            return Err(ConfigError::DelimiterEqualsQuote);
        }
        if self.delimiter == 10 || self.delimiter == 13 {
            return Err(ConfigError::DelimiterIsTerminator);
        }
        if self.quote_char == 10 || self.quote_char == 13 {
            return Err(ConfigError::QuoteIsTerminator);
        }
        if !self.flexible && matches!(self.flexible_default, Some(_)) {
            return Err(ConfigError::DefaultWithoutFlexible);
        }
        if self.channel_capacity == 0 {
            return Err(ConfigError::ZeroCapacity);
        }
        Ok(())
    }
}

} // verus!
