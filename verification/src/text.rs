//! Byte-string utilities shared by the tokenizer, the header step and the
//! record parser: ASCII whitespace trimming, NUL stripping, decimal rendering
//! for synthesized column names, and the UTF-8 checks behind the `lossy`
//! configuration flag.

use vstd::prelude::*;

verus! {

/// ASCII whitespace, as trimmed from headers and fields.
pub open spec fn is_ascii_ws(b: u8) -> bool {
    b == 32 || b == 9 || b == 10 || b == 13 || b == 12
}

pub open spec fn drop_leading_ws(s: Seq<u8>) -> Seq<u8>
    decreases s.len(),
{
    if s.len() > 0 && is_ascii_ws(s[0]) {
        drop_leading_ws(s.drop_first())
    } else {
        s
    }
}

pub open spec fn drop_trailing_ws(s: Seq<u8>) -> Seq<u8>
    decreases s.len(),
{
    if s.len() > 0 && is_ascii_ws(s.last()) {
        drop_trailing_ws(s.drop_last())
    } else {
        s
    }
}

/// The text with ASCII whitespace removed from both ends.
pub open spec fn spec_trim_ws(s: Seq<u8>) -> Seq<u8> {
    drop_trailing_ws(drop_leading_ws(s))
}

fn byte_is_ws(b: u8) -> (r: bool)
    ensures
        r == is_ascii_ws(b),
{
    b == 32 || b == 9 || b == 10 || b == 13 || b == 12
}

/// Copy of `v` with ASCII whitespace removed from both ends.
pub fn trim_ws(v: &Vec<u8>) -> (r: Vec<u8>)
    ensures
        r@ == spec_trim_ws(v@),
{
    let len = v.len();
    proof {
        assert(v@.subrange(0, len as int) =~= v@);
    }
    let mut i: usize = 0;
    while i < len && byte_is_ws(v[i])
        invariant
            len == v@.len(),
            i <= len,
            drop_leading_ws(v@) == drop_leading_ws(v@.subrange(i as int, len as int)),
        decreases len - i,
    {
        proof {
            assert(v@.subrange(i as int, len as int).drop_first() =~= v@.subrange(
                i + 1,
                len as int,
            ));
        }
        i = i + 1;
    }
    proof {
        assert(drop_leading_ws(v@) == v@.subrange(i as int, len as int));
    }
    let mut j: usize = len;
    while j > i && byte_is_ws(v[j - 1])
        invariant
            len == v@.len(),
            i <= j <= len,
            drop_trailing_ws(v@.subrange(i as int, len as int)) == drop_trailing_ws(
                v@.subrange(i as int, j as int),
            ),
        decreases j,
    {
        proof {
            assert(v@.subrange(i as int, j as int).drop_last() =~= v@.subrange(
                i as int,
                j - 1,
            ));
        }
        j = j - 1;
    }
    proof {
        assert(drop_trailing_ws(v@.subrange(i as int, j as int)) == v@.subrange(
            i as int,
            j as int,
        ));
    }
    let mut out: Vec<u8> = Vec::new();
    let mut k: usize = i;
    while k < j
        invariant
            i <= k <= j <= v@.len(),
            out@ == v@.subrange(i as int, k as int),
        decreases j - k,
    {
        out.push(v[k]);
        proof {
            assert(v@.subrange(i as int, k + 1) =~= v@.subrange(i as int, k as int).push(
                v@[k as int],
            ));
        }
        k = k + 1;
    }
    out
}

/// The text with every NUL byte removed.
pub open spec fn spec_strip_nul(s: Seq<u8>) -> Seq<u8> {
    s.filter(|b: u8| b != 0)
}

/// Copy of `v` with every NUL byte removed.
pub fn strip_nul(v: &Vec<u8>) -> (r: Vec<u8>)
    ensures
        r@ == spec_strip_nul(v@),
{
    let len = v.len();
    let mut out: Vec<u8> = Vec::new();
    let mut k: usize = 0;
    while k < len
        invariant
            len == v@.len(),
            k <= len,
            out@ == spec_strip_nul(v@.subrange(0, k as int)),
        decreases len - k,
    {
        let b = v[k];
        if b != 0 {
            out.push(b);
        }
        proof {
            let sub = v@.subrange(0, k + 1);
            assert(sub.drop_last() =~= v@.subrange(0, k as int));
            assert(sub.last() == v@[k as int]);
            reveal(Seq::filter);
        }
        k = k + 1;
    }
    proof {
        assert(v@.subrange(0, len as int) =~= v@);
    }
    out
}

/// Decimal digits (ASCII) of `n`, without sign or padding.
pub open spec fn dec_rep(n: nat) -> Seq<u8>
    decreases n,
{
    if n < 10 {
        seq![(48 + n) as u8]
    } else {
        dec_rep(n / 10).push((48 + n % 10) as u8)
    }
}

/// Renders `n` in decimal ASCII.
pub fn render_dec(n: usize) -> (r: Vec<u8>)
    ensures
        r@ == dec_rep(n as nat),
{
    let mut out: Vec<u8> = Vec::new();
    let mut m: usize = n;
    loop
        invariant_except_break
            dec_rep(n as nat) == dec_rep(m as nat) + out@,
        ensures
            dec_rep(n as nat) == out@,
        decreases m,
    {
        let d: u8 = 48 + (m % 10) as u8;
        out.insert(0, d);
        proof {
            assert(out@ =~= seq![d] + out@.drop_first());
        }
        if m < 10 {
            proof {
                assert(dec_rep(m as nat) == seq![d]);
                assert(dec_rep(n as nat) =~= out@);
            }
            break;
        }
        proof {
            assert(dec_rep(m as nat) == dec_rep(m as nat / 10).push(d));
            assert(dec_rep(m as nat / 10).push(d) + out@.drop_first() =~= dec_rep(
                m as nat / 10,
            ) + out@);
        }
        m = m / 10;
    }
    out
}

/// The synthesized name of column `i` when the input carries no header row:
/// `c` followed by the decimal digits of `i`.
pub open spec fn synth_header(i: nat) -> Seq<u8> {
    seq![99u8] + dec_rep(i)
}

/// Builds the synthesized name of column `i`.
pub fn make_synth_header(i: usize) -> (r: Vec<u8>)
    ensures
        r@ == synth_header(i as nat),
{
    let mut out: Vec<u8> = Vec::new();
    out.push(99);
    let digits = render_dec(i);
    let mut k: usize = 0;
    while k < digits.len()
        invariant
            digits@ == dec_rep(i as nat),
            k <= digits@.len(),
            out@ == seq![99u8] + digits@.subrange(0, k as int),
        decreases digits@.len() - k,
    {
        out.push(digits[k]);
        proof {
            assert(digits@.subrange(0, k + 1) =~= digits@.subrange(0, k as int).push(
                digits@[k as int],
            ));
            assert(seq![99u8] + digits@.subrange(0, k + 1) =~= (seq![99u8] + digits@.subrange(
                0,
                k as int,
            )).push(digits@[k as int]));
        }
        k = k + 1;
    }
    proof {
        assert(digits@.subrange(0, digits@.len() as int) =~= digits@);
    }
    out
}


/// Copy of `v`.
pub fn copy_bytes(v: &Vec<u8>) -> (r: Vec<u8>)
    ensures
        r@ == v@,
{
    let len = v.len();
    let mut out: Vec<u8> = Vec::new();
    let mut k: usize = 0;
    while k < len
        invariant
            len == v@.len(),
            k <= len,
            out@ == v@.subrange(0, k as int),
        decreases len - k,
    {
        out.push(v[k]);
        proof {
            assert(v@.subrange(0, k + 1) =~= v@.subrange(0, k as int).push(v@[k as int]));
        }
        k = k + 1;
    }
    proof {
        assert(v@.subrange(0, len as int) =~= v@);
    }
    out
}

/// The length of the well-formed scalar encoding that starts at `i`, or
/// `None` when the bytes at `i` do not begin one.
fn first_scalar_len(v: &Vec<u8>, i: usize) -> (r: Option<usize>)
    requires
        i < v@.len(),
    ensures
        match r {
            Some(l) => vstd::utf8::valid_first_scalar(v@.skip(i as int)) && l as int
                == vstd::utf8::length_of_first_scalar(v@.skip(i as int)) && 1 <= l && i + l
                <= v@.len(),
            None => !vstd::utf8::valid_first_scalar(v@.skip(i as int)),
        },
{
    let ghost s = v@.skip(i as int);
    let n = v.len();
    proof {
        assert(s.len() == n - i);
        assert(s[0] == v@[i as int]);
    }
    let b0 = v[i];
    if b0 <= 0x7f {
        proof {
            assert(b0 & 0x7f == b0) by (bit_vector)
                requires
                    b0 <= 0x7f,
            ;
            assert(vstd::utf8::valid_first_scalar(s));
            assert(vstd::utf8::length_of_first_scalar(s) == 1);
        }
        return Some(1);
    }
    if b0 < 0xc0 {
        // a continuation byte cannot lead a scalar
        proof {
            assert(!vstd::utf8::valid_leading_and_continuation_bytes_first_codepoint(s));
        }
        return None;
    }
    if b0 <= 0xdf {
        if i + 1 >= n {
            proof {
                assert(s.len() < 2);
                assert(!vstd::utf8::valid_leading_and_continuation_bytes_first_codepoint(s));
            }
            return None;
        }
        let b1 = v[i + 1];
        proof {
            assert(s[1] == v@[i + 1]);
        }
        if b1 < 0x80 || b1 > 0xbf {
            proof {
                assert(!vstd::utf8::valid_leading_and_continuation_bytes_first_codepoint(s));
            }
            return None;
        }
        let cp: u32 = (((b0 & 0x1f) as u32) << 6u32) | ((b1 & 0x3f) as u32);
        proof {
            assert(cp == vstd::utf8::decode_first_codepoint(s));
            assert(vstd::utf8::length_of_first_codepoint(s) == 2);
            assert((((b0 & 0x1f) as u32) << 6u32) | ((b1 & 0x3f) as u32) <= 0x7ff)
                by (bit_vector);
        }
        if cp < 0x80 {
            // overlong two-byte encoding
            proof {
                assert(!vstd::utf8::not_overlong_encoding(cp, 2));
            }
            return None;
        }
        proof {
            assert(vstd::utf8::valid_first_scalar(s));
        }
        return Some(2);
    }
    if b0 <= 0xef {
        if n - i < 3 {
            proof {
                assert(s.len() < 3);
                assert(!vstd::utf8::valid_leading_and_continuation_bytes_first_codepoint(s));
            }
            return None;
        }
        let b1 = v[i + 1];
        let b2 = v[i + 2];
        proof {
            assert(s[1] == v@[i + 1]);
            assert(s[2] == v@[i + 2]);
        }
        if b1 < 0x80 || b1 > 0xbf || b2 < 0x80 || b2 > 0xbf {
            proof {
                assert(!vstd::utf8::valid_leading_and_continuation_bytes_first_codepoint(s));
            }
            return None;
        }
        let cp: u32 = (((b0 & 0x0f) as u32) << 12u32) | (((b1 & 0x3f) as u32) << 6u32) | ((b2
            & 0x3f) as u32);
        proof {
            assert(cp == vstd::utf8::decode_first_codepoint(s));
            assert(vstd::utf8::length_of_first_codepoint(s) == 3);
        }
        if cp < 0x800 {
            proof {
                assert(!vstd::utf8::not_overlong_encoding(cp, 3));
            }
            return None;
        }
        if 0xd800 <= cp && cp <= 0xdfff {
            proof {
                assert(!vstd::utf8::not_surrogate(cp));
            }
            return None;
        }
        proof {
            assert(vstd::utf8::valid_first_scalar(s));
        }
        return Some(3);
    }
    if b0 <= 0xf7 {
        if n - i < 4 {
            proof {
                assert(s.len() < 4);
                assert(!vstd::utf8::valid_leading_and_continuation_bytes_first_codepoint(s));
            }
            return None;
        }
        let b1 = v[i + 1];
        let b2 = v[i + 2];
        let b3 = v[i + 3];
        proof {
            assert(s[1] == v@[i + 1]);
            assert(s[2] == v@[i + 2]);
            assert(s[3] == v@[i + 3]);
        }
        if b1 < 0x80 || b1 > 0xbf || b2 < 0x80 || b2 > 0xbf || b3 < 0x80 || b3 > 0xbf {
            proof {
                assert(!vstd::utf8::valid_leading_and_continuation_bytes_first_codepoint(s));
            }
            return None;
        }
        let cp: u32 = (((b0 & 0x07) as u32) << 18u32) | (((b1 & 0x3f) as u32) << 12u32) | (((
        b2 & 0x3f) as u32) << 6u32) | ((b3 & 0x3f) as u32);
        proof {
            assert(cp == vstd::utf8::decode_first_codepoint(s));
            assert(vstd::utf8::length_of_first_codepoint(s) == 4);
        }
        if cp < 0x10000 || cp > 0x10ffff {
            proof {
                assert(!vstd::utf8::not_overlong_encoding(cp, 4));
            }
            return None;
        }
        proof {
            assert(vstd::utf8::not_surrogate(cp));
            assert(vstd::utf8::valid_first_scalar(s));
        }
        return Some(4);
    }
    proof {
        assert(!vstd::utf8::valid_leading_and_continuation_bytes_first_codepoint(s));
    }
    None
}

/// Tests whether the bytes are valid UTF-8, against the standard library's
/// UTF-8 model: every position starts a well-formed scalar encoding.
pub fn utf8_ok(v: &Vec<u8>) -> (r: bool)
    ensures
        r == vstd::utf8::valid_utf8(v@),
{
    let n = v.len();
    let mut i: usize = 0;
    proof {
        assert(v@.skip(0) =~= v@);
    }
    while i < n
        invariant
            i <= n,
            n == v@.len(),
            vstd::utf8::valid_utf8(v@) == vstd::utf8::valid_utf8(v@.skip(i as int)),
        decreases n - i,
    {
        match first_scalar_len(v, i) {
            Some(l) => {
                proof {
                    let s = v@.skip(i as int);
                    assert(s.len() != 0);
                    assert(vstd::utf8::pop_first_scalar(s) =~= v@.skip(i + l));
                }
                i = i + l;
            },
            _ => {
                proof {
                    let s = v@.skip(i as int);
                    assert(s.len() != 0);
                    assert(!vstd::utf8::valid_utf8(s));
                }
                return false;
            },
        }
    }
    proof {
        assert(v@.skip(n as int) =~= Seq::<u8>::empty());
    }
    true
}

/// What the lossy byte-to-text conversion returns: a function of the bytes
/// alone.
pub uninterp spec fn lossy_repair(b: Seq<u8>) -> Seq<u8>;

/// Replaces invalid UTF-8 sequences with the replacement character.
///
/// Relies on `String::from_utf8_lossy`: the result depends on the bytes
/// alone, it is the bytes of a `String` (hence valid UTF-8), and bytes that
/// are already valid come back unchanged.
#[verifier::external_body]
pub(crate) fn repair_utf8(v: &Vec<u8>) -> (r: Vec<u8>)
    ensures
        r@ == lossy_repair(v@),
        vstd::utf8::valid_utf8(r@),
        vstd::utf8::valid_utf8(v@) ==> r@ == v@,
{
    String::from_utf8_lossy(v.as_slice()).into_owned().into_bytes()
}

} // verus!
