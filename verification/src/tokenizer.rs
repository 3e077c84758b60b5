//! Byte-level row tokenizer: splits delimited text into rows of raw fields.
//!
//! The grammar is given by recursive specification functions over the byte
//! sequence; `read_row` is the executable tokenizer, proved to return exactly
//! what the grammar says.
//!
//! Grammar notes: a field is quoted only when its first byte is the quote
//! character; inside a quoted field a doubled quote stands for one literal
//! quote; a closing quote must be followed by the delimiter, a row terminator
//! or the end of the input. Rows end at CR or LF; runs of terminator bytes
//! (and hence blank lines) are skipped between rows.

use vstd::prelude::*;

verus! {

/// A row-terminator byte: LF or CR.
pub open spec fn is_row_term(b: u8) -> bool {
    b == 10 || b == 13
}

/// Separator configuration the tokenizer accepts: delimiter and quote are
/// distinct and neither doubles as a row terminator.
pub open spec fn sep_ok(d: u8, q: u8) -> bool {
    d != q && !is_row_term(d) && !is_row_term(q)
}

/// The first index at or after `i` that does not hold a row-terminator byte.
pub open spec fn skip_blank(s: Seq<u8>, i: int) -> int
    decreases s.len() - i,
    when 0 <= i <= s.len()
{
    if i < s.len() && is_row_term(s[i]) {
        skip_blank(s, i + 1)
    } else {
        i
    }
}

/// Result of scanning a quoted field body (the part after the opening quote).
pub enum SpecQuoted {
    /// The input ends before the quote is closed.
    Open,
    /// The body's text, and the index just after the closing quote.
    Closed { content: Seq<u8>, after: int },
}

/// Prefixes `c` to the content of a closed quoted body; `Open` passes
/// through.
pub open spec fn prepend_quoted(c: Seq<u8>, r: SpecQuoted) -> SpecQuoted {
    match r {
        SpecQuoted::Closed { content, after } => SpecQuoted::Closed {
            content: c + content,
            after,
        },
        SpecQuoted::Open => SpecQuoted::Open,
    }
}

/// Scans the body of a quoted field starting at `i` (just after the opening
/// quote). A doubled quote yields one literal quote byte.
pub open spec fn quoted_body(s: Seq<u8>, i: int, q: u8) -> SpecQuoted
    decreases s.len() - i,
    when 0 <= i <= s.len()
{
    if i >= s.len() {
        SpecQuoted::Open
    } else if s[i] == q {
        if i + 1 < s.len() && s[i + 1] == q {
            prepend_quoted(seq![q], quoted_body(s, i + 2, q))
        } else {
            SpecQuoted::Closed { content: Seq::empty(), after: i + 1 }
        }
    } else {
        prepend_quoted(seq![s[i]], quoted_body(s, i + 1, q))
    }
}

/// A closed quoted body ends strictly after where it starts, within the
/// input.
pub proof fn lemma_quoted_bounds(s: Seq<u8>, i: int, q: u8)
    requires
        0 <= i <= s.len(),
    ensures
        match quoted_body(s, i, q) {
            SpecQuoted::Closed { after, .. } => i < after <= s.len(),
            SpecQuoted::Open => true,
        },
    decreases s.len() - i,
{
    if i >= s.len() {
    } else if s[i] == q {
        if i + 1 < s.len() && s[i + 1] == q {
            lemma_quoted_bounds(s, i + 2, q);
        }
    } else {
        lemma_quoted_bounds(s, i + 1, q);
    }
}

/// The first index at or after `i` holding the delimiter or a row terminator
/// (or the input's length): where an unquoted field ends.
pub open spec fn unquoted_end(s: Seq<u8>, i: int, d: u8) -> int
    decreases s.len() - i,
    when 0 <= i <= s.len()
{
    if i < s.len() && s[i] != d && !is_row_term(s[i]) {
        unquoted_end(s, i + 1, d)
    } else {
        i
    }
}

pub proof fn lemma_unquoted_bounds(s: Seq<u8>, i: int, d: u8)
    requires
        0 <= i <= s.len(),
    ensures
        i <= unquoted_end(s, i, d) <= s.len(),
    decreases s.len() - i,
{
    if i < s.len() && s[i] != d && !is_row_term(s[i]) {
        lemma_unquoted_bounds(s, i + 1, d);
    }
}

/// Result of tokenizing one row.
pub enum SpecRow {
    /// The input ends inside the row and more input may still arrive.
    Incomplete,
    /// No further row: nothing but blank lines up to the end of the input.
    End,
    /// One tokenized row; `next` is the index where the search for the
    /// following row starts (a row terminator or the input's length).
    Fields { fields: Seq<Seq<u8>>, next: int },
    /// Malformed quoting: an unterminated quote at the end of the input, or a
    /// stray byte after a closing quote.
    Bad,
}

/// Prefixes `fs` to the fields of a tokenized row; other outcomes pass
/// through.
pub open spec fn prepend_fields(fs: Seq<Seq<u8>>, r: SpecRow) -> SpecRow {
    match r {
        SpecRow::Fields { fields, next } => SpecRow::Fields { fields: fs + fields, next },
        other => other,
    }
}

/// Tokenizes the row that starts at `i` (not a blank-line position). With
/// `eof` false, a row that runs to the end of the input is `Incomplete`; with
/// `eof` true the end of the input closes the row.
pub open spec fn row_from(s: Seq<u8>, i: int, d: u8, q: u8, eof: bool) -> SpecRow
    decreases s.len() - i,
    when 0 <= i <= s.len()
    via row_from_dec
{
    if i < s.len() && s[i] == q {
        match quoted_body(s, i + 1, q) {
            SpecQuoted::Open => if eof {
                SpecRow::Bad
            } else {
                SpecRow::Incomplete
            },
            SpecQuoted::Closed { content, after } => {
                if after >= s.len() {
                    if eof {
                        SpecRow::Fields { fields: seq![content], next: after }
                    } else {
                        SpecRow::Incomplete
                    }
                } else if s[after] == d {
                    prepend_fields(seq![content], row_from(s, after + 1, d, q, eof))
                } else if is_row_term(s[after]) {
                    SpecRow::Fields { fields: seq![content], next: after }
                } else {
                    SpecRow::Bad
                }
            },
        }
    } else {
        let e = unquoted_end(s, i, d);
        let content = s.subrange(i, e);
        if e >= s.len() {
            if eof {
                SpecRow::Fields { fields: seq![content], next: e }
            } else {
                SpecRow::Incomplete
            }
        } else if s[e] == d {
            prepend_fields(seq![content], row_from(s, e + 1, d, q, eof))
        } else {
            SpecRow::Fields { fields: seq![content], next: e }
        }
    }
}

#[via_fn]
proof fn row_from_dec(s: Seq<u8>, i: int, d: u8, q: u8, eof: bool) {
    if 0 <= i <= s.len() {
        if i < s.len() && s[i] == q {
            lemma_quoted_bounds(s, i + 1, q);
        } else {
            lemma_unquoted_bounds(s, i, d);
        }
    }
}

/// Tokenizes the next row at or after `i`: skips blank lines, then reads one
/// row.
pub open spec fn next_row(s: Seq<u8>, i: int, d: u8, q: u8, eof: bool) -> SpecRow
    recommends
        0 <= i <= s.len(),
{
    let j = skip_blank(s, i);
    if j >= s.len() {
        if eof {
            SpecRow::End
        } else {
            SpecRow::Incomplete
        }
    } else {
        row_from(s, j, d, q, eof)
    }
}

/// `prepend_quoted` composes by concatenation.
proof fn lemma_prepend_quoted_assoc(a: Seq<u8>, b: Seq<u8>, r: SpecQuoted)
    ensures
        prepend_quoted(a, prepend_quoted(b, r)) == prepend_quoted(a + b, r),
{
    match r {
        SpecQuoted::Closed { content, after } => {
            assert(a + (b + content) =~= (a + b) + content);
        },
        SpecQuoted::Open => {},
    }
}

/// `prepend_fields` composes by concatenation.
proof fn lemma_prepend_fields_assoc(a: Seq<Seq<u8>>, b: Seq<Seq<u8>>, r: SpecRow)
    ensures
        prepend_fields(a, prepend_fields(b, r)) == prepend_fields(a + b, r),
{
    match r {
        SpecRow::Fields { fields, next } => {
            assert(a + (b + fields) =~= (a + b) + fields);
        },
        _ => {},
    }
}

/// Executable outcome of reading one row.
pub enum RowRead {
    /// The buffered input ends inside the row; feed more bytes and retry.
    NeedMore,
    /// Nothing but blank lines remain and the input has ended.
    EndOfInput,
    /// One tokenized row of raw fields; `next` is where the following row
    /// search starts.
    Fields { fields: Vec<Vec<u8>>, next: usize },
    /// Malformed quoting in this row.
    Malformed,
}

impl RowRead {
    /// Whether this executable outcome denotes the specification outcome `r`.
    pub open spec fn denotes(self, r: SpecRow) -> bool {
        match self {
            RowRead::NeedMore => r is Incomplete,
            RowRead::EndOfInput => r is End,
            RowRead::Malformed => r is Bad,
            RowRead::Fields { fields: fv, next: nv } => match r {
                SpecRow::Fields { fields, next } => fv.deep_view() == fields && nv as int
                    == next,
                _ => false,
            },
        }
    }
}

fn term_byte(b: u8) -> (r: bool)
    ensures
        r == is_row_term(b),
{
    b == 10 || b == 13
}

/// Reads the next row from `buf` starting at `pos`.
///
/// `eof` says whether `buf` already holds the whole input; while it is false,
/// a row that reaches the end of the buffer reports `NeedMore` instead of
/// being closed early.
#[verifier::loop_isolation(false)]
pub fn read_row(buf: &Vec<u8>, pos: usize, eof: bool, d: u8, q: u8) -> (r: RowRead)
    requires
        pos <= buf@.len(),
        sep_ok(d, q),
    ensures
        r.denotes(next_row(buf@, pos as int, d, q, eof)),
        r matches RowRead::Fields { next, .. } ==> pos <= next <= buf@.len(),
{
    let ghost s = buf@;
    let len = buf.len();
    let mut i: usize = pos;
    while i < len && term_byte(buf[i])
        invariant
            pos <= i <= len,
            skip_blank(s, pos as int) == skip_blank(s, i as int),
        decreases len - i,
    {
        i = i + 1;
    }
    proof {
        assert(skip_blank(s, pos as int) == i);
    }
    if i >= len {
        if eof {
            return RowRead::EndOfInput;
        } else {
            return RowRead::NeedMore;
        }
    }
    let mut fields: Vec<Vec<u8>> = Vec::new();
    let mut cur: usize = i;
    proof {
        match row_from(s, i as int, d, q, eof) {
            SpecRow::Fields { fields: f, next } => {
                assert(fields.deep_view() + f =~= f);
            },
            _ => {},
        }
    }
    loop
        invariant
            i <= cur <= len,
            row_from(s, i as int, d, q, eof) == prepend_fields(
                fields.deep_view(),
                row_from(s, cur as int, d, q, eof),
            ),
        decreases len - cur,
    {
        let ghost fields0 = fields.deep_view();
        let content: Vec<u8>;
        let after: usize;
        let quoted: bool = cur < len && buf[cur] == q;
        if quoted {
            // quoted field
            let mut body: Vec<u8> = Vec::new();
            let mut p: usize = cur + 1;
            let mut closed: bool = false;
            while !closed
                invariant
                    cur + 1 <= p <= len,
                    !closed ==> quoted_body(s, cur + 1, q) == prepend_quoted(
                        body@,
                        quoted_body(s, p as int, q),
                    ),
                    closed ==> quoted_body(s, cur + 1, q) == (SpecQuoted::Closed {
                        content: body@,
                        after: p as int,
                    }) && cur + 1 < p,
                decreases len - p,
            {
                if p >= len {
                    // quote never closed in the buffered input
                    if eof {
                        return RowRead::Malformed;
                    } else {
                        return RowRead::NeedMore;
                    }
                }
                let b = buf[p];
                let ghost body0 = body@;
                if b == q {
                    if p + 1 < len && buf[p + 1] == q {
                        body.push(q);
                        proof {
                            lemma_prepend_quoted_assoc(
                                body0,
                                seq![q],
                                quoted_body(s, p + 2, q),
                            );
                            assert(body@ =~= body0 + seq![q]);
                        }
                        p = p + 2;
                    } else {
                        proof {
                            assert(quoted_body(s, p as int, q) == (SpecQuoted::Closed {
                                content: Seq::<u8>::empty(),
                                after: p + 1,
                            }));
                            assert(body0 + Seq::<u8>::empty() =~= body0);
                        }
                        p = p + 1;
                        closed = true;
                    }
                } else {
                    body.push(b);
                    proof {
                        lemma_prepend_quoted_assoc(
                            body0,
                            seq![b],
                            quoted_body(s, p + 1, q),
                        );
                        assert(body@ =~= body0 + seq![b]);
                    }
                    p = p + 1;
                }
            }
            content = body;
            after = p;
        } else {
            // unquoted field
            let mut e: usize = cur;
            while e < len && buf[e] != d && !term_byte(buf[e])
                invariant
                    cur <= e <= len,
                    unquoted_end(s, cur as int, d) == unquoted_end(s, e as int, d),
                decreases len - e,
            {
                e = e + 1;
            }
            proof {
                assert(unquoted_end(s, cur as int, d) == e);
            }
            let mut body: Vec<u8> = Vec::new();
            let mut k: usize = cur;
            while k < e
                invariant
                    cur <= k <= e,
                    body@ == s.subrange(cur as int, k as int),
                decreases e - k,
            {
                body.push(buf[k]);
                proof {
                    assert(s.subrange(cur as int, k + 1) =~= s.subrange(
                        cur as int,
                        k as int,
                    ).push(s[k as int]));
                }
                k = k + 1;
            }
            content = body;
            after = e;
        }
        // `content` parses at `cur`; the field ends at `after` (for a quoted
        // field, just past the closing quote).
        proof {
            assert(content.deep_view() =~= content@);
        }
        if after >= len {
            if !eof {
                return RowRead::NeedMore;
            }
            fields.push(content);
            proof {
                assert(fields.deep_view() =~= fields0 + seq![content@]);
                lemma_prepend_fields_assoc(
                    fields0,
                    seq![content@],
                    SpecRow::Fields { fields: Seq::empty(), next: after as int },
                );
                assert(seq![content@] + Seq::<Seq<u8>>::empty() =~= seq![content@]);
                assert(fields0 + seq![content@] + Seq::<Seq<u8>>::empty() =~= fields0
                    + seq![content@]);
            }
            return RowRead::Fields { fields, next: after };
        } else if buf[after] == d {
            fields.push(content);
            proof {
                assert(fields.deep_view() =~= fields0 + seq![content@]);
                lemma_prepend_fields_assoc(
                    fields0,
                    seq![content@],
                    row_from(s, after + 1, d, q, eof),
                );
            }
            cur = after + 1;
        } else if term_byte(buf[after]) {
            fields.push(content);
            proof {
                assert(fields.deep_view() =~= fields0 + seq![content@]);
                lemma_prepend_fields_assoc(
                    fields0,
                    seq![content@],
                    SpecRow::Fields { fields: Seq::empty(), next: after as int },
                );
            }
            return RowRead::Fields { fields, next: after };
        } else {
            // a quoted field followed by a stray byte; unquoted fields end
            // only at a delimiter, a terminator or the input's end
            return RowRead::Malformed;
        }
    }
}

} // verus!
