//! Field-to-record conversion: turns one decoded row into either output
//! shape, applying the NUL-stripping, null-marker and flexible-fill policies.
//!
//! Per-field conversion order: decode (upstream of this module), strip NUL
//! bytes when configured, compare against the null marker (so a null marker
//! of empty text makes empty fields null), and otherwise keep the text. A
//! field map is zipped positionally with the headers: a short row leaves the
//! remaining headers on the flexible fill value, an overlong row's extra
//! fields are dropped (the map's keys are the headers). A field list keeps an
//! overlong row's extra fields; this asymmetry between the two shapes is the
//! documented policy here.

use vstd::prelude::*;
use crate::interner::StringCacheKey;
use crate::record::{CowStr, CsvRecordType};
use crate::text::{copy_bytes, lossy_repair, repair_utf8, spec_strip_nul, strip_nul};
use crate::interner::vecs_eq;

verus! {

/// The value of one field after decoding: strip NUL bytes when asked, then a
/// text equal to the null marker becomes null, anything else is kept.
pub open spec fn spec_cell(
    text: Seq<u8>,
    null_marker: Option<Seq<u8>>,
    strip: bool,
) -> Option<Seq<u8>> {
    let t = if strip {
        spec_strip_nul(text)
    } else {
        text
    };
    if null_marker == Some(t) {
        None
    } else {
        Some(t)
    }
}

/// The fill for a header beyond a short row's end: the flexible default when
/// the row is flexible and a default is configured, null otherwise.
pub open spec fn spec_fill(flexible: bool, fill: Option<Seq<u8>>) -> Option<Seq<u8>> {
    if flexible {
        fill
    } else {
        None
    }
}

/// The decoded text of field `i`: lossy repair under the `lossy` flag, the
/// raw bytes otherwise.
pub open spec fn spec_text_at(fields: Seq<Seq<u8>>, lossy: bool, i: int) -> Seq<u8> {
    if lossy {
        lossy_repair(fields[i])
    } else {
        fields[i]
    }
}

/// The value assigned to column `i` of a row in map shape.
pub open spec fn spec_col(
    fields: Seq<Seq<u8>>,
    lossy: bool,
    i: int,
    null_marker: Option<Seq<u8>>,
    strip: bool,
    flexible: bool,
    fill: Option<Seq<u8>>,
) -> Option<Seq<u8>> {
    if i < fields.len() {
        spec_cell(spec_text_at(fields, lossy, i), null_marker, strip)
    } else {
        spec_fill(flexible, fill)
    }
}

/// The record a row yields in list shape: every field converted in order,
/// and, for a flexible short row, the fill value up to the header count.
pub open spec fn spec_list_record(
    fields: Seq<Seq<u8>>,
    lossy: bool,
    header_count: int,
    null_marker: Option<Seq<u8>>,
    strip: bool,
    flexible: bool,
    fill: Option<Seq<u8>>,
) -> Seq<Option<Seq<u8>>> {
    let base = Seq::new(
        fields.len(),
        |i: int| spec_cell(spec_text_at(fields, lossy, i), null_marker, strip),
    );
    if flexible && base.len() < header_count {
        base + Seq::new((header_count - fields.len()) as nat, |i: int| fill)
    } else {
        base
    }
}

/// The record a row yields in map shape: each header keyed to its column's
/// value, a later duplicate header overriding an earlier one.
pub open spec fn spec_map_record(
    keys: Seq<StringCacheKey>,
    vals: Seq<Option<Seq<u8>>>,
) -> Map<StringCacheKey, Option<Seq<u8>>>
    recommends
        keys.len() == vals.len(),
    decreases keys.len(),
{
    if keys.len() == 0 {
        Map::empty()
    } else {
        spec_map_record(keys.drop_last(), vals.drop_last()).insert(keys.last(), vals.last())
    }
}

/// The column values a row assigns to `header_count` headers.
pub open spec fn spec_col_values(
    fields: Seq<Seq<u8>>,
    lossy: bool,
    header_count: int,
    null_marker: Option<Seq<u8>>,
    strip: bool,
    flexible: bool,
    fill: Option<Seq<u8>>,
) -> Seq<Option<Seq<u8>>> {
    Seq::new(
        header_count as nat,
        |i: int| spec_col(fields, lossy, i, null_marker, strip, flexible, fill),
    )
}

/// The map behind an association list, later entries overriding earlier
/// ones.
pub open spec fn pairs_map(ps: Seq<(StringCacheKey, Option<CowStr>)>) -> Map<
    StringCacheKey,
    Option<Seq<u8>>,
>
    decreases ps.len(),
{
    if ps.len() == 0 {
        Map::empty()
    } else {
        pairs_map(ps.drop_last()).insert(ps.last().0, ps.last().1.deep_view())
    }
}

/// No key appears twice.
pub open spec fn unique_keys(ps: Seq<(StringCacheKey, Option<CowStr>)>) -> bool {
    forall|i: int, j: int|
        0 <= i < j < ps.len() ==> (#[trigger] ps[i]).0 != (#[trigger] ps[j]).0
}

/// Converts field `i` of a decoded row.
pub fn cell_value(
    row: &CsvRecordType,
    i: usize,
    null_marker: &Option<Vec<u8>>,
    strip: bool,
) -> (r: Option<CowStr>)
    requires
        i < row.spec_len(),
    ensures
        r.deep_view() == spec_cell(
            spec_text_at(row.spec_fields(), row.spec_lossy(), i as int),
            null_marker.deep_view(),
            strip,
        ),
{
    let raw: Vec<u8> = match row {
        CsvRecordType::Byte(fs) => {
            let x = repair_utf8(&fs[i]);
            proof {
                assert(fs.deep_view()[i as int] =~= fs@[i as int]@);
            }
            x
        },
        CsvRecordType::Text(fs) => {
            let x = copy_bytes(&fs[i]);
            proof {
                assert(fs.deep_view()[i as int] =~= fs@[i as int]@);
            }
            x
        },
    };
    proof {
        assert(raw@ == spec_text_at(row.spec_fields(), row.spec_lossy(), i as int));
    }
    let t: Vec<u8> = if strip {
        strip_nul(&raw)
    } else {
        raw
    };
    match null_marker {
        Some(marker) => {
            proof {
                assert(marker.deep_view() =~= marker@);
            }
            if vecs_eq(marker, &t) {
                None
            } else {
                Some(CowStr(t))
            }
        },
        _ => Some(CowStr(t)),
    }
}

/// The fill value for a header beyond a short row's end.
fn fill_value(flexible: bool, fill: &Option<Vec<u8>>) -> (r: Option<CowStr>)
    ensures
        r.deep_view() == spec_fill(flexible, fill.deep_view()),
{
    if flexible {
        match fill {
            Some(d) => {
                proof {
                    assert(d.deep_view() =~= d@);
                }
                Some(CowStr(copy_bytes(d)))
            },
            _ => None,
        }
    } else {
        None
    }
}

/// Converts one decoded row into list shape.
#[verifier::loop_isolation(false)]
pub fn parse_list(
    row: &CsvRecordType,
    header_count: usize,
    null_marker: &Option<Vec<u8>>,
    strip: bool,
    flexible: bool,
    fill: &Option<Vec<u8>>,
) -> (r: Vec<Option<CowStr>>)
    ensures
        r.deep_view() == spec_list_record(
            row.spec_fields(),
            row.spec_lossy(),
            header_count as int,
            null_marker.deep_view(),
            strip,
            flexible,
            fill.deep_view(),
        ),
        r.deep_view().len() >= row.spec_len(),
{
    let ghost goal = spec_list_record(
        row.spec_fields(),
        row.spec_lossy(),
        header_count as int,
        null_marker.deep_view(),
        strip,
        flexible,
        fill.deep_view(),
    );
    let n = row.len();
    let mut out: Vec<Option<CowStr>> = Vec::new();
    let mut i: usize = 0;
    while i < n
        invariant
            i <= n,
            out.deep_view() =~= Seq::new(
                i as nat,
                |t: int| spec_cell(
                    spec_text_at(row.spec_fields(), row.spec_lossy(), t),
                    null_marker.deep_view(),
                    strip,
                ),
            ),
        decreases n - i,
    {
        let ghost dv0 = out.deep_view();
        let v = cell_value(row, i, null_marker, strip);
        out.push(v);
        proof {
            assert(out.deep_view() =~= dv0.push(v.deep_view()));
            assert(out.deep_view() =~= Seq::new(
                (i + 1) as nat,
                |t: int| spec_cell(
                    spec_text_at(row.spec_fields(), row.spec_lossy(), t),
                    null_marker.deep_view(),
                    strip,
                ),
            ));
        }
        i = i + 1;
    }
    if flexible {
        while i < header_count
            invariant
                row.spec_len() <= i,
                i <= header_count || i == row.spec_len(),
                out.deep_view() =~= Seq::new(
                    row.spec_len() as nat,
                    |t: int| spec_cell(
                        spec_text_at(row.spec_fields(), row.spec_lossy(), t),
                        null_marker.deep_view(),
                        strip,
                    ),
                ) + Seq::new((i - row.spec_len()) as nat, |t: int| fill.deep_view()),
            decreases header_count - i,
        {
            let ghost dv0 = out.deep_view();
            let v = fill_value(flexible, fill);
            out.push(v);
            proof {
                assert(out.deep_view() =~= dv0.push(v.deep_view()));
                assert(out.deep_view() =~= Seq::new(
                    row.spec_len() as nat,
                    |t: int| spec_cell(
                        spec_text_at(row.spec_fields(), row.spec_lossy(), t),
                        null_marker.deep_view(),
                        strip,
                    ),
                ) + Seq::new((i + 1 - row.spec_len()) as nat, |t: int| fill.deep_view()));
            }
            i = i + 1;
        }
    }
    proof {
        assert(out.deep_view() =~= goal);
    }
    out
}

/// Converts one decoded row into map shape, zipping the headers with the
/// row's columns. Keys in the result are unique; each is one of the headers.
#[verifier::loop_isolation(false)]
pub fn parse_map(
    headers: &Vec<StringCacheKey>,
    row: &CsvRecordType,
    null_marker: &Option<Vec<u8>>,
    strip: bool,
    flexible: bool,
    fill: &Option<Vec<u8>>,
) -> (r: Vec<(StringCacheKey, Option<CowStr>)>)
    ensures
        pairs_map(r@) == spec_map_record(
            headers@,
            spec_col_values(
                row.spec_fields(),
                row.spec_lossy(),
                headers@.len() as int,
                null_marker.deep_view(),
                strip,
                flexible,
                fill.deep_view(),
            ),
        ),
        unique_keys(r@),
        r@.len() <= headers@.len(),
        forall|t: int|
            0 <= t < r@.len() ==> exists|j: int|
                0 <= j < headers@.len() && (#[trigger] r@[t]).0 == headers@[j],
{
    let ghost cols = spec_col_values(
        row.spec_fields(),
        row.spec_lossy(),
        headers@.len() as int,
        null_marker.deep_view(),
        strip,
        flexible,
        fill.deep_view(),
    );
    let n = headers.len();
    let row_len = row.len();
    let mut out: Vec<(StringCacheKey, Option<CowStr>)> = Vec::new();
    let mut i: usize = 0;
    proof {
        assert(headers@.take(0) =~= Seq::<StringCacheKey>::empty());
        assert(cols.take(0) =~= Seq::<Option<Seq<u8>>>::empty());
    }
    while i < n
        invariant
            i <= n,
            out@.len() <= i,
            unique_keys(out@),
            pairs_map(out@) == spec_map_record(headers@.take(i as int), cols.take(i as int)),
            forall|t: int|
                0 <= t < out@.len() ==> exists|j: int|
                    0 <= j < i && (#[trigger] out@[t]).0 == headers@[j],
        decreases n - i,
    {
        let key = headers[i];
        let v: Option<CowStr> = if i < row_len {
            cell_value(row, i, null_marker, strip)
        } else {
            fill_value(flexible, fill)
        };
        proof {
            assert(v.deep_view() == cols[i as int]);
        }
        let ghost out0 = out@;
        let mut found: usize = out.len();
        let mut t: usize = 0;
        let m = out.len();
        while t < m
            invariant
                t <= m,
                found <= m,
                m == out@.len(),
                out@ == out0,
                found == m ==> forall|u: int| 0 <= u < t ==> (#[trigger] out0[u]).0 != key,
                found < m ==> out0[found as int].0 == key,
            decreases m - t,
        {
            if out[t].0 == key {
                found = t;
                t = m;
            } else {
                t = t + 1;
            }
        }
        proof {
            assert(headers@.take(i + 1).drop_last() =~= headers@.take(i as int));
            assert(cols.take(i + 1).drop_last() =~= cols.take(i as int));
            assert(headers@.take(i + 1).last() == headers@[i as int]);
            assert(cols.take(i + 1).last() == cols[i as int]);
        }
        if found < m {
            let slot = &mut out[found];
            *slot = (key, v);
            proof {
                assert(out@ =~= out0.update(found as int, (key, v)));
                lemma_pairs_map_update(out0, found as int, key, v);
            }
        } else {
            out.push((key, v));
            proof {
                assert(out@.drop_last() =~= out0);
                assert(out@.last() == (key, v));
            }
        }
        i = i + 1;
    }
    proof {
        assert(headers@.take(n as int) =~= headers@);
        assert(cols.take(n as int) =~= cols);
    }
    out
}


/// Law: a map record keys exactly the headers it was zipped with, whatever
/// the row's width.
pub proof fn lemma_map_record_dom(keys: Seq<StringCacheKey>, vals: Seq<Option<Seq<u8>>>)
    requires
        keys.len() == vals.len(),
    ensures
        spec_map_record(keys, vals).dom() == keys.to_set(),
    decreases keys.len(),
{
    if keys.len() == 0 {
        assert(spec_map_record(keys, vals).dom() =~= keys.to_set()) by {
            assert(forall|x: StringCacheKey| !(#[trigger] keys.to_set().contains(x)));
        }
    } else {
        lemma_map_record_dom(keys.drop_last(), vals.drop_last());
        let dom = spec_map_record(keys, vals).dom();
        assert(dom =~= keys.drop_last().to_set().insert(keys.last()));
        assert(keys.drop_last().to_set().insert(keys.last()) =~= keys.to_set()) by {
            assert forall|x: StringCacheKey|
                keys.drop_last().to_set().insert(keys.last()).contains(x) implies #[trigger]
            keys.to_set().contains(x) by {
                if x == keys.last() {
                    assert(keys[keys.len() - 1] == x);
                } else {
                    let idx = choose|idx: int|
                        0 <= idx < keys.drop_last().len() && keys.drop_last()[idx] == x;
                    assert(keys[idx] == x);
                }
            }
            assert forall|x: StringCacheKey| keys.to_set().contains(x) implies
                keys.drop_last().to_set().insert(keys.last()).contains(x) by {
                let idx = choose|idx: int| 0 <= idx < keys.len() && keys[idx] == x;
                if idx < keys.len() - 1 {
                    assert(keys.drop_last()[idx] == x);
                    assert(keys.drop_last().contains(x));
                }
            }
        }
    }
}

/// Overwriting the entry that holds key `k` in an association list with
/// unique keys is inserting into its map.
proof fn lemma_pairs_map_update(
    ps: Seq<(StringCacheKey, Option<CowStr>)>,
    idx: int,
    k: StringCacheKey,
    v: Option<CowStr>,
)
    requires
        unique_keys(ps),
        0 <= idx < ps.len(),
        ps[idx].0 == k,
    ensures
        pairs_map(ps.update(idx, (k, v))) == pairs_map(ps).insert(k, v.deep_view()),
        unique_keys(ps.update(idx, (k, v))),
    decreases ps.len(),
{
    let upd = ps.update(idx, (k, v));
    assert(unique_keys(upd)) by {
        assert(forall|t: int| 0 <= t < ps.len() ==> (#[trigger] upd[t]).0 == ps[t].0);
    }
    if idx == ps.len() - 1 {
        assert(upd.drop_last() =~= ps.drop_last());
        assert(upd.last() == (k, v));
        assert(pairs_map(upd) == pairs_map(ps.drop_last()).insert(k, v.deep_view()));
        assert(pairs_map(ps.drop_last()).insert(k, ps.last().1.deep_view()).insert(
            k,
            v.deep_view(),
        ) =~= pairs_map(ps.drop_last()).insert(k, v.deep_view()));
    } else {
        assert(upd.drop_last() =~= ps.drop_last().update(idx, (k, v)));
        assert(upd.last() == ps.last());
        assert(unique_keys(ps.drop_last())) by {
            assert(forall|t: int|
                0 <= t < ps.len() - 1 ==> (#[trigger] ps.drop_last()[t]).0 == ps[t].0);
        }
        assert(ps.drop_last()[idx].0 == k);
        lemma_pairs_map_update(ps.drop_last(), idx, k, v);
        assert(ps.last().0 != k);
        assert(pairs_map(ps.drop_last()).insert(k, v.deep_view()).insert(
            ps.last().0,
            ps.last().1.deep_view(),
        ) =~= pairs_map(ps.drop_last()).insert(ps.last().0, ps.last().1.deep_view()).insert(
            k,
            v.deep_view(),
        ));
    }
}

} // verus!
