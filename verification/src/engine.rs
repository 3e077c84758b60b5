//! The reader engine: a pull-driven state machine over buffered input bytes.
//!
//! The engine never performs I/O itself. The host feeds it byte chunks
//! (`feed`), marks the end of the input (`finish`), and pulls: first
//! `read_headers` (one row establishes or synthesizes the headers and interns
//! them), then `next_record` once per record. `NeedInput` outcomes ask the
//! host for more bytes; with a transferable source the host may run this loop
//! on a worker thread and ship records through a bounded channel, otherwise
//! it drives the same loop inline (`read_mode` says which).
//!
//! Failure policy is fail-stop: the first malformed or undecodable row is
//! surfaced once and the engine moves to `Exhausted`; no further records
//! follow. Disposal (`close`) releases the interned header handles and says
//! whether the host should close the underlying OS resource: only an owned
//! one, never a borrowed one.

use vstd::prelude::*;
use crate::config::{ReaderConfig, ResultType};
use crate::errors::{HeaderIssue, ReaderError, SyntaxIssue};
use crate::interner::{
    ids_of, spec_intern_fits, spec_intern_many, spec_release_many, CacheError, StringCache,
    StringCacheKey,
};
use crate::parser::{
    pairs_map, parse_list, parse_map, spec_col_values, spec_list_record, spec_map_record,
    unique_keys,
};
use crate::record::{CsvRecord, CsvRecordType};
use crate::source::{spec_should_close, Ownership, SourceInfo};
use crate::text::{
    copy_bytes, lossy_repair, make_synth_header, repair_utf8, spec_strip_nul, spec_trim_ws,
    strip_nul, synth_header, trim_ws, utf8_ok,
};
use crate::tokenizer::{next_row, read_row, RowRead, SpecRow};
use vstd::utf8::valid_utf8;

verus! {

/// The engine's lifecycle.
#[derive(Debug, Clone, Copy, PartialEq, Eq, Structural)]
pub enum EngineState {
    /// Built; the header row not yet read.
    Created,
    /// Headers established and interned; no record pulled yet.
    HeaderRead,
    /// Records are being pulled.
    Streaming,
    /// The input ended, or the sequence ended at its first error.
    Exhausted,
    /// Disposed by the consumer.
    Closed,
}

/// Outcome of the header-establishing step.
pub enum HeaderOutcome {
    /// The buffered bytes end inside the first row; feed more and retry.
    NeedInput,
    /// Headers are established and interned.
    Ready,
    /// Establishing the headers failed; the engine is exhausted.
    Failed(ReaderError),
    /// The engine had already left its created state.
    AlreadyDone,
}

/// Outcome of one record pull.
pub enum PullOutcome {
    /// The headers have not been read yet.
    NotReady,
    /// The buffered bytes end inside the row; feed more and retry.
    NeedInput,
    /// One parsed record.
    Record(CsvRecord),
    /// The input is exhausted (or the engine closed); no further records.
    Finished,
    /// The terminal error of the sequence; no further records follow.
    Failed(ReaderError),
}

/// What disposal asks of the host: whether to close the underlying OS
/// resource. False for a borrowed or host-owned source.
#[derive(Debug, Clone, Copy, PartialEq, Eq, Structural)]
pub struct CloseAction {
    pub close_handle: bool,
}

/// The scheduling regime for a source: a worker thread with a bounded
/// channel where the source may move threads, an inline pull loop where it
/// may not.
#[derive(Debug, Clone, Copy, PartialEq, Eq, Structural)]
pub enum ReadMode {
    SingleThreaded,
    MultiThreaded,
}

/// The row's fields with the trimming policy applied.
pub open spec fn spec_trimmed(fields: Seq<Seq<u8>>, t: bool) -> Seq<Seq<u8>> {
    if t {
        fields.map_values(|f: Seq<u8>| spec_trim_ws(f))
    } else {
        fields
    }
}

/// Every field of the row holds valid UTF-8.
pub open spec fn spec_all_valid(fields: Seq<Seq<u8>>) -> bool {
    forall|i: int| 0 <= i < fields.len() ==> valid_utf8(#[trigger] fields[i])
}

/// The header names a first row yields: trim under the header-trimming
/// policy, decode (lossy repair, or fail on invalid text), strip NUL bytes
/// when configured. `None` is the encoding failure.
pub open spec fn spec_header_names(
    fields: Seq<Seq<u8>>,
    trim_h: bool,
    lossy: bool,
    strip: bool,
) -> Option<Seq<Seq<u8>>> {
    let tf = spec_trimmed(fields, trim_h);
    if !lossy && !spec_all_valid(tf) {
        None
    } else {
        let dec = if lossy {
            tf.map_values(|f: Seq<u8>| lossy_repair(f))
        } else {
            tf
        };
        if strip {
            Some(dec.map_values(|f: Seq<u8>| spec_strip_nul(f)))
        } else {
            Some(dec)
        }
    }
}

/// The synthesized header names for `n` columns: `c0`, `c1`, ...
pub open spec fn spec_synth_headers(n: int) -> Seq<Seq<u8>> {
    Seq::new(n as nat, |i: int| synth_header(i as nat))
}

/// The streaming engine. The host reads these fields freely but mutates
/// them only through the methods.
pub struct ReaderEngine {
    pub config: ReaderConfig,
    pub result_type: ResultType,
    pub source: SourceInfo,
    pub state: EngineState,
    pub buf: Vec<u8>,
    pub pos: usize,
    pub eof: bool,
    pub headers: Vec<StringCacheKey>,
}

impl ReaderEngine {
    /// Valid separators and a read position inside the buffer.
    pub open spec fn wf(&self) -> bool {
        &&& self.config.valid()
        &&& self.pos <= self.buf@.len()
    }

    /// The engine's current lifecycle state.
    pub fn state(&self) -> (r: EngineState)
        ensures
            r == self.state,
    {
        self.state
    }

    /// The interned header handles, in column order.
    pub fn header_handles(&self) -> (r: &Vec<StringCacheKey>)
        ensures
            r@ == self.headers@,
    {
        &self.headers
    }

    /// What classification decided about the source.
    pub fn source_info(&self) -> (r: SourceInfo)
        ensures
            r == self.source,
    {
        self.source
    }

    /// The scheduling regime for this engine's source: a worker thread
    /// exactly when the source may move threads.
    pub fn read_mode(&self) -> (r: ReadMode)
        ensures
            r == (if self.source.transferable {
                ReadMode::MultiThreaded
            } else {
                ReadMode::SingleThreaded
            }),
    {
        if self.source.transferable {
            ReadMode::MultiThreaded
        } else {
            ReadMode::SingleThreaded
        }
    }

    /// Appends a chunk of input bytes. After `finish` this is a no-op.
    pub fn feed(&mut self, chunk: &Vec<u8>)
        requires
            old(self).wf(),
        ensures
            final(self).wf(),
            final(self).buf@ == (if old(self).eof {
                old(self).buf@
            } else {
                old(self).buf@ + chunk@
            }),
            final(self).config == old(self).config,
            final(self).result_type == old(self).result_type,
            final(self).source == old(self).source,
            final(self).state == old(self).state,
            final(self).pos == old(self).pos,
            final(self).eof == old(self).eof,
            final(self).headers@ == old(self).headers@,
    {
        if !self.eof {
            self.buf.extend_from_slice(chunk.as_slice());
        }
    }

    /// Marks the end of the input: no more bytes will come.
    pub fn finish(&mut self)
        requires
            old(self).wf(),
        ensures
            final(self).wf(),
            final(self).eof == true,
            final(self).config == old(self).config,
            final(self).result_type == old(self).result_type,
            final(self).source == old(self).source,
            final(self).state == old(self).state,
            final(self).buf@ == old(self).buf@,
            final(self).pos == old(self).pos,
            final(self).headers@ == old(self).headers@,
    {
        self.eof = true;
    }

    /// Drops the already-consumed prefix of the buffer, so that a host
    /// driving a long input need not hold all of it.
    pub fn compact(&mut self)
        requires
            old(self).wf(),
        ensures
            final(self).wf(),
            final(self).buf@ == old(self).buf@.skip(old(self).pos as int),
            final(self).pos == 0,
            final(self).config == old(self).config,
            final(self).result_type == old(self).result_type,
            final(self).source == old(self).source,
            final(self).state == old(self).state,
            final(self).eof == old(self).eof,
            final(self).headers@ == old(self).headers@,
    {
        let len = self.buf.len();
        let mut tail: Vec<u8> = Vec::new();
        let mut k: usize = self.pos;
        while k < len
            invariant
                self.pos <= k <= len,
                len == self.buf@.len(),
                tail@ == self.buf@.subrange(self.pos as int, k as int),
            decreases len - k,
        {
            tail.push(self.buf[k]);
            proof {
                assert(self.buf@.subrange(self.pos as int, k + 1) =~= self.buf@.subrange(
                    self.pos as int,
                    k as int,
                ).push(self.buf@[k as int]));
            }
            k = k + 1;
        }
        proof {
            assert(tail@ =~= self.buf@.skip(self.pos as int));
        }
        self.buf = tail;
        self.pos = 0;
    }

    /// Reads exactly one row to establish the headers (or synthesizes
    /// `c0, c1, ...` from its width when the input carries no header row,
    /// leaving the row to be read again as data), then interns them.
    ///
    /// Takes the interner once for the whole batch. On failure the engine is
    /// exhausted: header failures prevent streaming.
    pub fn read_headers(&mut self, cache: &mut StringCache) -> (r: HeaderOutcome)
        requires
            old(self).wf(),
            old(cache).wf(),
        ensures
            final(self).wf(),
            final(cache).wf(),
            final(self).config == old(self).config,
            final(self).result_type == old(self).result_type,
            final(self).source == old(self).source,
            final(self).buf@ == old(self).buf@,
            final(self).eof == old(self).eof,
            !(old(self).state is Created) ==> r is AlreadyDone && *final(self) == *old(self)
                && *final(cache) == *old(cache),
            old(self).state is Created ==> match next_row(
                old(self).buf@,
                old(self).pos as int,
                old(self).config.delimiter,
                old(self).config.quote_char,
                old(self).eof,
            ) {
                SpecRow::Incomplete => r is NeedInput && *final(self) == *old(self)
                    && *final(cache) == *old(cache),
                SpecRow::Bad => r == HeaderOutcome::Failed(
                    ReaderError::Header(HeaderIssue::Syntax),
                ) && final(self).state is Exhausted && *final(cache) == *old(cache)
                    && final(self).headers@ == old(self).headers@,
                SpecRow::End => r is Ready && final(self).state is HeaderRead
                    && final(self).headers@.len() == 0 && *final(cache) == *old(cache)
                    && final(self).pos == old(self).pos,
                SpecRow::Fields { fields, next } => {
                    let names = if old(self).config.has_headers {
                        spec_header_names(
                            fields,
                            old(self).config.trim.spec_trims_headers(),
                            old(self).config.lossy,
                            old(self).config.ignore_null_bytes,
                        )
                    } else {
                        Some(spec_synth_headers(fields.len() as int))
                    };
                    match names {
                        Option::Some(ns) => {
                            if spec_intern_fits(old(cache)@, ns) {
                                &&& r is Ready
                                &&& final(self).state is HeaderRead
                                &&& (final(cache)@, ids_of(final(self).headers@))
                                    == spec_intern_many(old(cache)@, ns)
                                &&& final(self).headers@.len() == ns.len()
                                &&& forall|i: int|
                                    0 <= i < ns.len() ==> 0 <= #[trigger] ids_of(
                                        final(self).headers@,
                                    )[i] < final(cache)@.len() && final(cache)@[ids_of(
                                        final(self).headers@,
                                    )[i]].0 == ns[i]
                                &&& final(self).pos as int == (if old(self).config.has_headers {
                                    next
                                } else {
                                    old(self).pos as int
                                })
                            } else {
                                &&& r == HeaderOutcome::Failed(
                                    ReaderError::Header(
                                        HeaderIssue::Intern(CacheError::CounterSaturated),
                                    ),
                                )
                                &&& final(self).state is Exhausted
                            }
                        },
                        Option::None => r == HeaderOutcome::Failed(
                            ReaderError::Header(HeaderIssue::Encoding),
                        ) && final(self).state is Exhausted && *final(cache) == *old(cache),
                    }
                },
            },
    {
        if !matches!(self.state, EngineState::Created) {
            return HeaderOutcome::AlreadyDone;
        }
        let d = self.config.delimiter;
        let q = self.config.quote_char;
        match read_row(&self.buf, self.pos, self.eof, d, q) {
            RowRead::NeedMore => HeaderOutcome::NeedInput,
            RowRead::EndOfInput => {
                self.headers = Vec::new();
                self.state = EngineState::HeaderRead;
                HeaderOutcome::Ready
            },
            RowRead::Malformed => {
                self.state = EngineState::Exhausted;
                HeaderOutcome::Failed(ReaderError::Header(HeaderIssue::Syntax))
            },
            RowRead::Fields { fields, next } => {
                let names: Vec<Vec<u8>>;
                if self.config.has_headers {
                    let tf = trim_row(&fields, self.config.trim.trims_headers());
                    if !self.config.lossy && !all_valid_row(&tf) {
                        self.state = EngineState::Exhausted;
                        return HeaderOutcome::Failed(
                            ReaderError::Header(HeaderIssue::Encoding),
                        );
                    }
                    let dec = if self.config.lossy {
                        repair_row(&tf)
                    } else {
                        tf
                    };
                    names = if self.config.ignore_null_bytes {
                        strip_row(&dec)
                    } else {
                        dec
                    };
                    proof {
                        assert(Some(names.deep_view()) == spec_header_names(
                            fields.deep_view(),
                            self.config.trim.spec_trims_headers(),
                            self.config.lossy,
                            self.config.ignore_null_bytes,
                        ));
                    }
                } else {
                    names = synth_row(fields.len());
                }
                proof {
                    crate::interner::lemma_intern_many_matches(cache@, names.deep_view());
                }
                match cache.intern_many(&names) {
                    Ok(keys) => {
                        self.headers = keys;
                        if self.config.has_headers {
                            self.pos = next;
                        }
                        self.state = EngineState::HeaderRead;
                        HeaderOutcome::Ready
                    },
                    Err(e) => {
                        self.state = EngineState::Exhausted;
                        HeaderOutcome::Failed(ReaderError::Header(HeaderIssue::Intern(e)))
                    },
                }
            },
        }
    }

    /// Pulls the next record.
    ///
    /// In every yielded record each entry is one converted column; while
    /// flexible mode is off, a row whose field count differs from the header
    /// count ends the sequence with a record-syntax error, so every yielded
    /// list record has exactly one value per header, and every map record
    /// keys exactly the headers.
    pub fn next_record(&mut self) -> (r: PullOutcome)
        requires
            old(self).wf(),
        ensures
            final(self).wf(),
            final(self).config == old(self).config,
            final(self).result_type == old(self).result_type,
            final(self).source == old(self).source,
            final(self).buf@ == old(self).buf@,
            final(self).eof == old(self).eof,
            final(self).headers@ == old(self).headers@,
            old(self).state is Created ==> r is NotReady && *final(self) == *old(self),
            old(self).state is Exhausted || old(self).state is Closed ==> r is Finished
                && *final(self) == *old(self),
            old(self).state is HeaderRead || old(self).state is Streaming ==> match next_row(
                old(self).buf@,
                old(self).pos as int,
                old(self).config.delimiter,
                old(self).config.quote_char,
                old(self).eof,
            ) {
                SpecRow::Incomplete => r is NeedInput && final(self).state is Streaming
                    && final(self).pos == old(self).pos,
                SpecRow::End => r is Finished && final(self).state is Exhausted,
                SpecRow::Bad => r == PullOutcome::Failed(
                    ReaderError::RecordSyntax(SyntaxIssue::BadQuote),
                ) && final(self).state is Exhausted,
                SpecRow::Fields { fields, next } => {
                    let hlen = old(self).headers@.len() as int;
                    let tf = spec_trimmed(fields, old(self).config.trim.spec_trims_fields());
                    if !old(self).config.flexible && fields.len() != hlen {
                        &&& final(self).state is Exhausted
                        &&& r matches PullOutcome::Failed(
                            ReaderError::RecordSyntax(SyntaxIssue::FieldCount { got, want }),
                        ) && got == fields.len() && want == hlen
                    } else if !old(self).config.lossy && !spec_all_valid(tf) {
                        &&& final(self).state is Exhausted
                        &&& r == PullOutcome::Failed(ReaderError::Encoding)
                    } else {
                        &&& final(self).state is Streaming
                        &&& final(self).pos as int == next
                        &&& r matches PullOutcome::Record(rec) && (match rec {
                            CsvRecord::FieldList(vs) => {
                                &&& old(self).result_type is Array
                                &&& vs.deep_view() == spec_list_record(
                                    tf,
                                    old(self).config.lossy,
                                    hlen,
                                    old(self).config.null_string.deep_view(),
                                    old(self).config.ignore_null_bytes,
                                    old(self).config.flexible,
                                    old(self).config.flexible_default.deep_view(),
                                )
                                &&& (!old(self).config.flexible ==> vs@.len() == hlen)
                            },
                            CsvRecord::FieldMap(ps) => {
                                &&& old(self).result_type is Hash
                                &&& pairs_map(ps@) == spec_map_record(
                                    old(self).headers@,
                                    spec_col_values(
                                        tf,
                                        old(self).config.lossy,
                                        hlen,
                                        old(self).config.null_string.deep_view(),
                                        old(self).config.ignore_null_bytes,
                                        old(self).config.flexible,
                                        old(self).config.flexible_default.deep_view(),
                                    ),
                                )
                                &&& unique_keys(ps@)
                                &&& ps@.len() <= hlen
                                &&& pairs_map(ps@).dom() == old(self).headers@.to_set()
                            },
                        })
                    }
                },
            },
    {
        match self.state {
            EngineState::Created => {
                return PullOutcome::NotReady;
            },
            EngineState::Exhausted | EngineState::Closed => {
                return PullOutcome::Finished;
            },
            _ => {},
        }
        self.state = EngineState::Streaming;
        let d = self.config.delimiter;
        let q = self.config.quote_char;
        match read_row(&self.buf, self.pos, self.eof, d, q) {
            RowRead::NeedMore => PullOutcome::NeedInput,
            RowRead::EndOfInput => {
                self.state = EngineState::Exhausted;
                PullOutcome::Finished
            },
            RowRead::Malformed => {
                self.state = EngineState::Exhausted;
                PullOutcome::Failed(ReaderError::RecordSyntax(SyntaxIssue::BadQuote))
            },
            RowRead::Fields { fields, next } => {
                let got = fields.len();
                let want = self.headers.len();
                if !self.config.flexible && got != want {
                    self.state = EngineState::Exhausted;
                    return PullOutcome::Failed(
                        ReaderError::RecordSyntax(SyntaxIssue::FieldCount { got, want }),
                    );
                }
                let tf = trim_row(&fields, self.config.trim.trims_fields());
                if !self.config.lossy && !all_valid_row(&tf) {
                    self.state = EngineState::Exhausted;
                    return PullOutcome::Failed(ReaderError::Encoding);
                }
                let row = if self.config.lossy {
                    CsvRecordType::Byte(tf)
                } else {
                    CsvRecordType::Text(tf)
                };
                self.pos = next;
                match self.result_type {
                    ResultType::Array => {
                        let vs = parse_list(
                            &row,
                            want,
                            &self.config.null_string,
                            self.config.ignore_null_bytes,
                            self.config.flexible,
                            &self.config.flexible_default,
                        );
                        PullOutcome::Record(CsvRecord::FieldList(vs))
                    },
                    ResultType::Hash => {
                        let ps = parse_map(
                            &self.headers,
                            &row,
                            &self.config.null_string,
                            self.config.ignore_null_bytes,
                            self.config.flexible,
                            &self.config.flexible_default,
                        );
                        proof {
                            crate::parser::lemma_map_record_dom(
                                self.headers@,
                                spec_col_values(
                                    row.spec_fields(),
                                    row.spec_lossy(),
                                    self.headers@.len() as int,
                                    self.config.null_string.deep_view(),
                                    self.config.ignore_null_bytes,
                                    self.config.flexible,
                                    self.config.flexible_default.deep_view(),
                                ),
                            );
                        }
                        PullOutcome::Record(CsvRecord::FieldMap(ps))
                    },
                }
            },
        }
    }

    /// Disposes the engine: releases the interned header handles back to the
    /// cache and reports whether the host should close the underlying OS
    /// resource — only an owned one; a borrowed or host-owned source is left
    /// open for its owner.
    pub fn close(&mut self, cache: &mut StringCache) -> (r: CloseAction)
        requires
            old(self).wf(),
            old(cache).wf(),
        ensures
            final(self).wf(),
            final(cache).wf(),
            final(self).state is Closed,
            final(self).headers@.len() == 0,
            final(cache)@ == spec_release_many(old(cache)@, ids_of(old(self).headers@)),
            r.close_handle == spec_should_close(old(self).source.ownership),
            final(self).config == old(self).config,
            final(self).result_type == old(self).result_type,
            final(self).source == old(self).source,
            final(self).buf@ == old(self).buf@,
            final(self).pos == old(self).pos,
            final(self).eof == old(self).eof,
    {
        cache.release(&self.headers);
        self.headers = Vec::new();
        self.state = EngineState::Closed;
        CloseAction { close_handle: matches!(self.source.ownership, Ownership::Owned) }
    }
}

/// Applies the trimming policy to every field of a row.
fn trim_row(fields: &Vec<Vec<u8>>, t: bool) -> (r: Vec<Vec<u8>>)
    ensures
        r.deep_view() == spec_trimmed(fields.deep_view(), t),
{
    let n = fields.len();
    let mut out: Vec<Vec<u8>> = Vec::new();
    let mut i: usize = 0;
    while i < n
        invariant
            i <= n,
            n == fields@.len(),
            out.deep_view() =~= spec_trimmed(fields.deep_view(), t).take(i as int),
        decreases n - i,
    {
        let ghost dv0 = out.deep_view();
        let f = if t {
            trim_ws(&fields[i])
        } else {
            copy_bytes(&fields[i])
        };
        out.push(f);
        proof {
            assert(fields.deep_view()[i as int] =~= fields@[i as int]@);
            assert(f.deep_view() =~= f@);
            assert(out.deep_view() =~= dv0.push(f@));
            assert(spec_trimmed(fields.deep_view(), t).take(i + 1) =~= spec_trimmed(
                fields.deep_view(),
                t,
            ).take(i as int).push(spec_trimmed(fields.deep_view(), t)[i as int]));
        }
        i = i + 1;
    }
    proof {
        assert(spec_trimmed(fields.deep_view(), t).take(n as int) =~= spec_trimmed(
            fields.deep_view(),
            t,
        ));
    }
    out
}

/// Whether every field of the row holds valid UTF-8.
fn all_valid_row(fields: &Vec<Vec<u8>>) -> (r: bool)
    ensures
        r == spec_all_valid(fields.deep_view()),
{
    let n = fields.len();
    let mut i: usize = 0;
    while i < n
        invariant
            i <= n,
            n == fields@.len(),
            forall|t: int| 0 <= t < i ==> valid_utf8(#[trigger] fields.deep_view()[t]),
        decreases n - i,
    {
        if !utf8_ok(&fields[i]) {
            proof {
                assert(fields.deep_view()[i as int] =~= fields@[i as int]@);
            }
            return false;
        }
        proof {
            assert(fields.deep_view()[i as int] =~= fields@[i as int]@);
        }
        i = i + 1;
    }
    true
}

/// Repairs every field of a row lossily.
fn repair_row(fields: &Vec<Vec<u8>>) -> (r: Vec<Vec<u8>>)
    ensures
        r.deep_view() == fields.deep_view().map_values(|f: Seq<u8>| lossy_repair(f)),
{
    let ghost goal = fields.deep_view().map_values(|f: Seq<u8>| lossy_repair(f));
    let n = fields.len();
    let mut out: Vec<Vec<u8>> = Vec::new();
    let mut i: usize = 0;
    while i < n
        invariant
            i <= n,
            n == fields@.len(),
            goal == fields.deep_view().map_values(|f: Seq<u8>| lossy_repair(f)),
            out.deep_view() =~= goal.take(i as int),
        decreases n - i,
    {
        let ghost dv0 = out.deep_view();
        let f = repair_utf8(&fields[i]);
        out.push(f);
        proof {
            assert(fields.deep_view()[i as int] =~= fields@[i as int]@);
            assert(f.deep_view() =~= f@);
            assert(out.deep_view() =~= dv0.push(f@));
            assert(goal.take(i + 1) =~= goal.take(i as int).push(goal[i as int]));
        }
        i = i + 1;
    }
    proof {
        assert(goal.take(n as int) =~= goal);
    }
    out
}

/// Strips NUL bytes from every field of a row.
fn strip_row(fields: &Vec<Vec<u8>>) -> (r: Vec<Vec<u8>>)
    ensures
        r.deep_view() == fields.deep_view().map_values(|f: Seq<u8>| spec_strip_nul(f)),
{
    let ghost goal = fields.deep_view().map_values(|f: Seq<u8>| spec_strip_nul(f));
    let n = fields.len();
    let mut out: Vec<Vec<u8>> = Vec::new();
    let mut i: usize = 0;
    while i < n
        invariant
            i <= n,
            n == fields@.len(),
            goal == fields.deep_view().map_values(|f: Seq<u8>| spec_strip_nul(f)),
            out.deep_view() =~= goal.take(i as int),
        decreases n - i,
    {
        let ghost dv0 = out.deep_view();
        let f = strip_nul(&fields[i]);
        out.push(f);
        proof {
            assert(fields.deep_view()[i as int] =~= fields@[i as int]@);
            assert(f.deep_view() =~= f@);
            assert(out.deep_view() =~= dv0.push(f@));
            assert(goal.take(i + 1) =~= goal.take(i as int).push(goal[i as int]));
        }
        i = i + 1;
    }
    proof {
        assert(goal.take(n as int) =~= goal);
    }
    out
}

/// Builds the synthesized header names for `n` columns.
fn synth_row(n: usize) -> (r: Vec<Vec<u8>>)
    ensures
        r.deep_view() == spec_synth_headers(n as int),
{
    let mut out: Vec<Vec<u8>> = Vec::new();
    let mut i: usize = 0;
    while i < n
        invariant
            i <= n,
            out.deep_view() =~= spec_synth_headers(n as int).take(i as int),
        decreases n - i,
    {
        let ghost dv0 = out.deep_view();
        let f = make_synth_header(i);
        out.push(f);
        proof {
            assert(f.deep_view() =~= f@);
            assert(out.deep_view() =~= dv0.push(f@));
            assert(spec_synth_headers(n as int).take(i + 1) =~= spec_synth_headers(
                n as int,
            ).take(i as int).push(spec_synth_headers(n as int)[i as int]));
        }
        i = i + 1;
    }
    proof {
        assert(spec_synth_headers(n as int).take(n as int) =~= spec_synth_headers(n as int));
    }
    out
}

} // verus!
