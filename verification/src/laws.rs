//! Stream-level laws of the tokenizer and parser.
//!
//! `encode_rows` writes rows of plain fields in the textbook way — fields
//! joined by the delimiter, one row per line — and the lemmas here prove the
//! round trip: tokenizing the encoded text yields exactly the original rows,
//! the stream ends right after them, and with default options each row
//! becomes a record with one entry per column.

use vstd::prelude::*;
use crate::parser::{spec_cell, spec_list_record};
use crate::tokenizer::{
    is_row_term, next_row, row_from, sep_ok, skip_blank, unquoted_end, SpecRow,
};

verus! {

/// A field that needs no quoting: free of the delimiter, the quote and row
/// terminators.
pub open spec fn plain_field(f: Seq<u8>, d: u8, q: u8) -> bool {
    forall|i: int| 0 <= i < f.len() ==> f[i] != d && f[i] != q && !is_row_term(#[trigger] f[i])
}

/// A non-empty row of plain fields.
pub open spec fn row_fields_plain(row: Seq<Seq<u8>>, d: u8, q: u8) -> bool {
    row.len() > 0 && (forall|i: int| 0 <= i < row.len() ==> plain_field(#[trigger] row[i], d, q))
}

/// A row that the textbook encoding represents faithfully: plain fields,
/// and not the single empty field (whose encoding would be a blank line,
/// which the tokenizer skips).
pub open spec fn plain_row(row: Seq<Seq<u8>>, d: u8, q: u8) -> bool {
    &&& row_fields_plain(row, d, q)
    &&& !(row.len() == 1 && row[0].len() == 0)
}

pub open spec fn plain_rows(rows: Seq<Seq<Seq<u8>>>, d: u8, q: u8) -> bool {
    forall|k: int| 0 <= k < rows.len() ==> plain_row(#[trigger] rows[k], d, q)
}

/// One row, written with the delimiter between fields.
pub open spec fn encode_row(row: Seq<Seq<u8>>, d: u8) -> Seq<u8>
    recommends
        row.len() > 0,
    decreases row.len(),
{
    if row.len() <= 1 {
        if row.len() == 1 {
            row[0]
        } else {
            Seq::empty()
        }
    } else {
        row[0] + seq![d] + encode_row(row.drop_first(), d)
    }
}

/// Rows written one per line, each line ended by LF.
pub open spec fn encode_rows(rows: Seq<Seq<Seq<u8>>>, d: u8) -> Seq<u8>
    decreases rows.len(),
{
    if rows.len() == 0 {
        Seq::empty()
    } else {
        encode_row(rows[0], d) + seq![10u8] + encode_rows(rows.drop_first(), d)
    }
}

/// The first `n` rows the tokenizer takes from position `i` of a complete
/// input, with the position it stops at; `None` when it runs out of rows or
/// meets a malformed one.
pub open spec fn spec_take_rows(s: Seq<u8>, i: int, d: u8, q: u8, n: nat) -> Option<
    (Seq<Seq<Seq<u8>>>, int),
>
    decreases n,
{
    if n == 0 {
        Some((Seq::empty(), i))
    } else {
        match next_row(s, i, d, q, true) {
            SpecRow::Fields { fields, next } => match spec_take_rows(
                s,
                next,
                d,
                q,
                (n - 1) as nat,
            ) {
                Some((rest, end)) => Some((seq![fields] + rest, end)),
                _ => None,
            },
            _ => None,
        }
    }
}

/// An unquoted-field scan over known-plain bytes stops exactly at `j`.
proof fn lemma_unquoted_end_at(s: Seq<u8>, i: int, j: int, d: u8)
    requires
        0 <= i <= j <= s.len(),
        forall|t: int| i <= t < j ==> s[t] != d && !is_row_term(#[trigger] s[t]),
        j == s.len() || s[j] == d || is_row_term(s[j]),
    ensures
        unquoted_end(s, i, d) == j,
    decreases j - i,
{
    if i < j {
        lemma_unquoted_end_at(s, i + 1, j, d);
    }
}

/// An encoded plain row is never empty, and its first byte is neither a row
/// terminator nor the quote.
proof fn lemma_encode_row_first(row: Seq<Seq<u8>>, d: u8, q: u8)
    requires
        plain_row(row, d, q),
        sep_ok(d, q),
    ensures
        encode_row(row, d).len() >= 1,
        !is_row_term(encode_row(row, d)[0]),
        encode_row(row, d)[0] != q,
{
    if row.len() == 1 {
        assert(encode_row(row, d) == row[0]);
        assert(row[0].len() >= 1);
        assert(row[0][0] != q && !is_row_term(row[0][0]));
    } else {
        let e = row[0] + seq![d] + encode_row(row.drop_first(), d);
        assert(encode_row(row, d) == e);
        if row[0].len() > 0 {
            assert(e[0] == row[0][0]);
        } else {
            assert(e[0] == d);
        }
    }
}

/// Tokenizing at the start of an encoded plain row, inside a larger input
/// that continues with a row terminator (or ends) right after it, yields
/// exactly that row and stops at the terminator.
proof fn lemma_row_from_encoded(s: Seq<u8>, i: int, row: Seq<Seq<u8>>, d: u8, q: u8)
    requires
        sep_ok(d, q),
        row_fields_plain(row, d, q),
        0 <= i,
        i + encode_row(row, d).len() <= s.len(),
        s.subrange(i, i + encode_row(row, d).len()) == encode_row(row, d),
        i + encode_row(row, d).len() == s.len() || is_row_term(
            s[i + encode_row(row, d).len()],
        ),
    ensures
        row_from(s, i, d, q, true) == (SpecRow::Fields {
            fields: row,
            next: i + encode_row(row, d).len(),
        }),
    decreases row.len(),
{
    let enc = encode_row(row, d);
    let f0 = row[0];
    let e = i + f0.len();
    assert(forall|t: int| 0 <= t < enc.len() ==> s[i + t] == enc[t]) by {
        assert(forall|t: int|
            0 <= t < enc.len() ==> s.subrange(i, i + enc.len())[t] == #[trigger] enc[t]);
    }
    if row.len() == 1 {
        assert(enc == f0);
        assert forall|t: int| i <= t < e implies s[t] == f0[t - i] by {
            assert(s[i + (t - i)] == enc[t - i]);
        }
        assert forall|t: int| i <= t < e implies s[t] != d && !is_row_term(s[t]) by {
            assert(s[t] == f0[t - i]);
        }
        lemma_unquoted_end_at(s, i, e, d);
        assert(!(i < s.len() && s[i] == q)) by {
            if i < s.len() && f0.len() > 0 {
                assert(s[i] == f0[0]);
            }
            if i < s.len() && f0.len() == 0 {
                assert(is_row_term(s[i]) || i >= s.len());
            }
        }
        assert(s.subrange(i, e) =~= f0);
        if e >= s.len() {
        } else {
            assert(is_row_term(s[e]));
            assert(s[e] != d);
        }
        assert(seq![f0] =~= row);
    } else {
        assert(enc == f0 + seq![d] + encode_row(row.drop_first(), d));
        assert forall|t: int| i <= t < e implies s[t] == f0[t - i] by {
            assert(s[i + (t - i)] == enc[t - i]);
            assert(enc[t - i] == (f0 + seq![d])[t - i]);
            assert((f0 + seq![d])[t - i] == f0[t - i]);
        }
        assert(s[e] == d) by {
            assert(s[i + f0.len() as int] == enc[f0.len() as int]);
            assert(enc[f0.len() as int] == (f0 + seq![d])[f0.len() as int]);
        }
        assert forall|t: int| i <= t < e implies s[t] != d && !is_row_term(s[t]) by {
            assert(s[t] == f0[t - i]);
        }
        lemma_unquoted_end_at(s, i, e, d);
        assert(!(i < s.len() && s[i] == q)) by {
            if f0.len() > 0 {
                assert(s[i] == f0[0]);
            } else {
                assert(s[i] == d);
            }
        }
        assert(s.subrange(i, e) =~= f0);
        let rest = row.drop_first();
        let i2 = e + 1;
        assert(row_fields_plain(rest, d, q)) by {
            assert(forall|t: int| 0 <= t < rest.len() ==> rest[t] == row[t + 1]);
        }
        assert(i2 + encode_row(rest, d).len() == i + enc.len());
        assert forall|t: int| 0 <= t < encode_row(rest, d).len() implies s.subrange(
            i2,
            i2 + encode_row(rest, d).len(),
        )[t] == encode_row(rest, d)[t] by {
            let u = f0.len() as int + 1 + t;
            assert(s[i + u] == enc[u]);
            assert(enc[u] == encode_row(rest, d)[t]) by {
                assert(enc[u] == ((f0 + seq![d]) + encode_row(rest, d))[u]);
            }
            assert(s.subrange(i2, i2 + encode_row(rest, d).len())[t] == s[i2 + t]);
            assert(i2 + t == i + u);
        }
        assert(s.subrange(i2, i2 + encode_row(rest, d).len()) =~= encode_row(rest, d));
        lemma_row_from_encoded(s, i2, rest, d, q);
        assert(row_from(s, i, d, q, true) == (SpecRow::Fields {
            fields: seq![f0] + rest,
            next: i + enc.len(),
        }));
        assert(seq![f0] + rest =~= row);
    }
}

/// Tokenizing the tail of an input that holds exactly the encoded rows from
/// position `i` on yields exactly those rows and then the end of the input.
proof fn lemma_stream_at(s: Seq<u8>, i: int, rows: Seq<Seq<Seq<u8>>>, d: u8, q: u8)
    requires
        sep_ok(d, q),
        plain_rows(rows, d, q),
        0 <= i <= s.len(),
        s.subrange(i, s.len() as int) == encode_rows(rows, d),
    ensures
        ({
            let taken = spec_take_rows(s, i, d, q, rows.len());
            &&& taken matches Some((got, end)) && got == rows && next_row(s, end, d, q, true)
                is End
        }),
    decreases rows.len(),
{
    if rows.len() == 0 {
        assert(s.subrange(i, s.len() as int).len() == 0);
        assert(i == s.len());
        assert(skip_blank(s, i) == i);
        assert(spec_take_rows(s, i, d, q, 0) == Some((Seq::<Seq<Seq<u8>>>::empty(), i)));
        assert(Seq::<Seq<Seq<u8>>>::empty() =~= rows);
    } else {
        let row = rows[0];
        let enc = encode_row(row, d);
        let tail = encode_rows(rows.drop_first(), d);
        assert(encode_rows(rows, d) == enc + seq![10u8] + tail);
        assert(forall|t: int|
            0 <= t < encode_rows(rows, d).len() ==> s[i + t] == #[trigger] encode_rows(
                rows,
                d,
            )[t]) by {
            assert(forall|t: int|
                0 <= t < encode_rows(rows, d).len() ==> s.subrange(i, s.len() as int)[t]
                    == #[trigger] encode_rows(rows, d)[t]);
        }
        lemma_encode_row_first(row, d, q);
        assert(s[i] == enc[0]) by {
            assert(s[i + 0] == encode_rows(rows, d)[0]);
            assert(encode_rows(rows, d)[0] == (enc + seq![10u8])[0]);
            assert((enc + seq![10u8])[0] == enc[0]);
        }
        assert(skip_blank(s, i) == i);
        let e = i + enc.len();
        assert(s[e] == 10) by {
            assert(s[i + enc.len() as int] == encode_rows(rows, d)[enc.len() as int]);
            assert(encode_rows(rows, d)[enc.len() as int] == (enc + seq![10u8])[
                enc.len() as int]);
        }
        assert(s.subrange(i, e) =~= enc) by {
            assert(forall|t: int| 0 <= t < enc.len() ==> s.subrange(i, e)[t] == s[i + t]);
        }
        lemma_row_from_encoded(s, i, row, d, q);
        assert(next_row(s, i, d, q, true) == (SpecRow::Fields { fields: row, next: e }));
        let i2 = e + 1;
        assert(s.len() - i == encode_rows(rows, d).len());
        assert forall|t: int| 0 <= t < tail.len() implies s.subrange(i2, s.len() as int)[t]
            == tail[t] by {
            let u = enc.len() as int + 1 + t;
            assert(s[i + u] == encode_rows(rows, d)[u]);
            assert(encode_rows(rows, d)[u] == tail[t]) by {
                assert(encode_rows(rows, d)[u] == ((enc + seq![10u8]) + tail)[u]);
            }
            assert(s.subrange(i2, s.len() as int)[t] == s[i2 + t]);
            assert(i2 + t == i + u);
        }
        assert(s.subrange(i2, s.len() as int) =~= tail);
        assert(plain_rows(rows.drop_first(), d, q)) by {
            assert(forall|k: int|
                0 <= k < rows.drop_first().len() ==> rows.drop_first()[k] == rows[k + 1]);
        }
        lemma_stream_at(s, i2, rows.drop_first(), d, q);
        // the tokenizer restarts at the terminator; skipping it lands on i2
        assert(skip_blank(s, e) == skip_blank(s, i2));
        if rows.drop_first().len() == 0 {
            assert(spec_take_rows(s, i2, d, q, 0) == Some((Seq::<Seq<Seq<u8>>>::empty(), i2)));
            assert(next_row(s, e, d, q, true) is End) by {
                assert(i2 == s.len());
                assert(skip_blank(s, i2) == i2);
            }
            assert(spec_take_rows(s, e, d, q, (rows.len() - 1) as nat) == Some((
                Seq::<Seq<Seq<u8>>>::empty(),
                e,
            )));
            assert(seq![row] + Seq::<Seq<Seq<u8>>>::empty() =~= rows);
            assert(next_row(s, e, d, q, true) is End);
        } else {
            let (got2, end2) = spec_take_rows(s, i2, d, q, rows.drop_first().len()).unwrap();
            lemma_take_rows_skip(s, e, i2, d, q, rows.drop_first().len());
            assert(spec_take_rows(s, e, d, q, rows.drop_first().len()) == spec_take_rows(
                s,
                i2,
                d,
                q,
                rows.drop_first().len(),
            ));
            assert(seq![row] + got2 =~= rows);
        }
    }
}

/// Two starting positions with the same first row produce the same take: the
/// tokenizer's `next_row` result at a terminator position equals the one
/// just past it, because blank-skipping crosses the terminator.
proof fn lemma_take_rows_skip(s: Seq<u8>, a: int, b: int, d: u8, q: u8, n: nat)
    requires
        0 <= a <= b <= s.len(),
        skip_blank(s, a) == skip_blank(s, b),
        n > 0,
    ensures
        spec_take_rows(s, a, d, q, n) == spec_take_rows(s, b, d, q, n),
{
    assert(next_row(s, a, d, q, true) == next_row(s, b, d, q, true));
}

/// Law: any number of plain rows, written one per line with fields joined by
/// the delimiter, tokenize back to exactly those rows, and the stream ends
/// right after the last one.
pub proof fn lemma_round_trip(rows: Seq<Seq<Seq<u8>>>, d: u8, q: u8)
    requires
        sep_ok(d, q),
        plain_rows(rows, d, q),
    ensures
        ({
            let s = encode_rows(rows, d);
            let taken = spec_take_rows(s, 0, d, q, rows.len());
            &&& taken matches Some((got, end)) && got == rows && next_row(s, end, d, q, true)
                is End
        }),
{
    let s = encode_rows(rows, d);
    assert(s.subrange(0, s.len() as int) =~= s);
    lemma_stream_at(s, 0, rows, d, q);
}

/// Law: with default options (no null marker, no stripping, strict text,
/// not flexible) a row of plain fields becomes a list record holding exactly
/// one `Some` entry per column, in order.
pub proof fn lemma_default_record_entries(fields: Seq<Seq<u8>>)
    ensures
        spec_list_record(fields, false, fields.len() as int, None, false, false, None)
            =~= fields.map_values(|f: Seq<u8>| Some(f)),
        spec_list_record(
            fields,
            false,
            fields.len() as int,
            None,
            false,
            false,
            None,
        ).len() == fields.len(),
{
    let r = spec_list_record(fields, false, fields.len() as int, None, false, false, None);
    assert(forall|i: int| 0 <= i < fields.len() ==> r[i] == Some(#[trigger] fields[i])) by {
        assert(forall|i: int|
            0 <= i < fields.len() ==> spec_cell(#[trigger] fields[i], None, false) == Some(
                fields[i],
            ));
    }
}

} // verus!
