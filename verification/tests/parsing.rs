//! Tokenizer and field-conversion behavior: quoting, terminators, trimming,
//! NUL stripping, encoding policy, and separators.

use osv::{
    CowStr, CsvRecord, HeaderOutcome, PullOutcome, ReaderError, RecordReaderBuilder,
    ResultType, SourceDescriptor, StringCache, SyntaxIssue, Trim,
};

fn amem(data: &[u8]) -> RecordReaderBuilder {
    RecordReaderBuilder::new(SourceDescriptor::InMemoryBytes { data: data.to_vec() })
        .result_type(ResultType::Array)
}

fn arun(b: RecordReaderBuilder) -> (Vec<Vec<u8>>, Vec<Result<Vec<Option<Vec<u8>>>, ReaderError>>) {
    let mut cache = StringCache::new();
    let mut eng = b.build().expect("build");
    match eng.read_headers(&mut cache) {
        HeaderOutcome::Ready => {}
        HeaderOutcome::Failed(e) => panic!("header failure: {:?}", e),
        _ => panic!("headers not ready"),
    }
    let mut headers: Vec<Vec<u8>> = Vec::new();
    for k in eng.header_handles() {
        headers.push(cache.text_of(*k).expect("handle").clone());
    }
    let mut out = Vec::new();
    loop {
        match eng.next_record() {
            PullOutcome::Record(CsvRecord::FieldList(vs)) => {
                out.push(Ok(vs
                    .iter()
                    .map(|v: &Option<CowStr>| v.as_ref().map(|c| c.0.clone()))
                    .collect()))
            }
            PullOutcome::Record(_) => panic!("expected list records"),
            PullOutcome::Finished => break,
            PullOutcome::Failed(e) => {
                out.push(Err(e));
                break;
            }
            _ => panic!("engine stalled"),
        }
    }
    (headers, out)
}

fn sv(s: &[u8]) -> Option<Vec<u8>> {
    Some(s.to_vec())
}

#[test]
fn quoted_fields_with_embedded_separators() {
    let (_, recs) = arun(amem(b"a,b\n\"1,2\",\"x\"\"y\"\n"));
    assert_eq!(recs.len(), 1);
    assert_eq!(recs[0].as_ref().unwrap(), &vec![sv(b"1,2"), sv(b"x\"y")]);
}

#[test]
fn quoted_field_spans_lines() {
    let (_, recs) = arun(amem(b"a,b\n\"l1\nl2\",z\n"));
    assert_eq!(recs[0].as_ref().unwrap(), &vec![sv(b"l1\nl2"), sv(b"z")]);
}

#[test]
fn unterminated_quote_is_a_syntax_error() {
    let (_, recs) = arun(amem(b"a,b\n\"oops"));
    assert_eq!(recs.len(), 1);
    assert!(matches!(
        recs[0],
        Err(ReaderError::RecordSyntax(SyntaxIssue::BadQuote))
    ));
}

#[test]
fn stray_byte_after_closing_quote_is_a_syntax_error() {
    let (_, recs) = arun(amem(b"a,b\n\"x\"y,2\n"));
    assert!(matches!(
        recs[0],
        Err(ReaderError::RecordSyntax(SyntaxIssue::BadQuote))
    ));
}

#[test]
fn crlf_and_blank_lines() {
    let (headers, recs) = arun(amem(b"a,b\r\n\r\n1,2\r\n\n\n3,4\r\n"));
    assert_eq!(headers, vec![b"a".to_vec(), b"b".to_vec()]);
    assert_eq!(recs.len(), 2);
    assert_eq!(recs[0].as_ref().unwrap(), &vec![sv(b"1"), sv(b"2")]);
    assert_eq!(recs[1].as_ref().unwrap(), &vec![sv(b"3"), sv(b"4")]);
}

#[test]
fn custom_delimiter_and_quote() {
    let (_, recs) = arun(amem(b"a;b\n'x;y';2\n").delimiter(b';').quote_char(b'\''));
    assert_eq!(recs[0].as_ref().unwrap(), &vec![sv(b"x;y"), sv(b"2")]);
}

#[test]
fn trim_all_strips_headers_and_fields() {
    let (headers, recs) = arun(amem(b" a , b \n 1 ,\t2 \n").trim(Trim::All));
    assert_eq!(headers, vec![b"a".to_vec(), b"b".to_vec()]);
    assert_eq!(recs[0].as_ref().unwrap(), &vec![sv(b"1"), sv(b"2")]);
}

#[test]
fn trim_headers_leaves_fields_alone() {
    let (headers, recs) = arun(amem(b" a , b \n 1 , 2 \n").trim(Trim::Headers));
    assert_eq!(headers, vec![b"a".to_vec(), b"b".to_vec()]);
    assert_eq!(recs[0].as_ref().unwrap(), &vec![sv(b" 1 "), sv(b" 2 ")]);
}

#[test]
fn trim_fields_leaves_headers_alone() {
    let (headers, recs) = arun(amem(b" a , b \n 1 , 2 \n").trim(Trim::Fields));
    assert_eq!(headers, vec![b" a ".to_vec(), b" b ".to_vec()]);
    assert_eq!(recs[0].as_ref().unwrap(), &vec![sv(b"1"), sv(b"2")]);
}

#[test]
fn nul_bytes_stripped_when_asked() {
    let (headers, recs) = arun(amem(b"a\x00b\nx\x00y\n").ignore_null_bytes(true));
    assert_eq!(headers, vec![b"ab".to_vec()]);
    assert_eq!(recs[0].as_ref().unwrap(), &vec![sv(b"xy")]);
}

#[test]
fn nul_bytes_kept_by_default() {
    let (headers, recs) = arun(amem(b"a\x00b\nx\x00y\n"));
    assert_eq!(headers, vec![b"a\x00b".to_vec()]);
    assert_eq!(recs[0].as_ref().unwrap(), &vec![sv(b"x\x00y")]);
}

#[test]
fn invalid_text_fails_strict_rows() {
    let (_, recs) = arun(amem(b"a\n\xff\n"));
    assert_eq!(recs.len(), 1);
    assert!(matches!(recs[0], Err(ReaderError::Encoding)));
}

#[test]
fn invalid_text_repaired_when_lossy() {
    let (_, recs) = arun(amem(b"a\nx\xffy\n").lossy(true));
    // the invalid byte is replaced, not passed through
    assert_eq!(recs[0].as_ref().unwrap(), &vec![sv("x\u{FFFD}y".as_bytes())]);
}

#[test]
fn invalid_header_fails_strict_build_step() {
    let mut cache = StringCache::new();
    let mut eng = amem(b"\xff\n1\n").build().expect("build");
    match eng.read_headers(&mut cache) {
        HeaderOutcome::Failed(ReaderError::Header(osv::HeaderIssue::Encoding)) => {}
        _ => panic!("expected a header encoding failure"),
    }
}

#[test]
fn empty_null_marker_beats_empty_field() {
    // the null comparison runs before the empty-text rule, so an empty
    // marker turns empty fields into nulls
    let (_, recs) = arun(amem(b"a,b\n,x\n").null_string(Some(Vec::new())));
    assert_eq!(recs[0].as_ref().unwrap(), &vec![None, sv(b"x")]);
}

#[test]
fn null_marker_checked_after_nul_stripping() {
    let (_, recs) = arun(
        amem(b"a\nN\x00A\n")
            .ignore_null_bytes(true)
            .null_string(Some(b"NA".to_vec())),
    );
    assert_eq!(recs[0].as_ref().unwrap(), &vec![None]);
}

#[test]
fn trailing_delimiter_yields_empty_last_field() {
    let (_, recs) = arun(amem(b"a,b\n1,\n"));
    assert_eq!(recs[0].as_ref().unwrap(), &vec![sv(b"1"), sv(b"")]);
}

#[test]
fn last_row_without_terminator() {
    let (_, recs) = arun(amem(b"a,b\n1,2"));
    assert_eq!(recs[0].as_ref().unwrap(), &vec![sv(b"1"), sv(b"2")]);
}

#[test]
fn synthesized_headers_reach_double_digits() {
    let data = b"0,1,2,3,4,5,6,7,8,9,10,11";
    let (headers, recs) = arun(amem(data).has_headers(false));
    assert_eq!(headers.len(), 12);
    assert_eq!(headers[11], b"c11".to_vec());
    assert_eq!(recs[0].as_ref().unwrap().len(), 12);
}

#[test]
fn duplicate_headers_last_column_wins() {
    let mut cache = StringCache::new();
    let mut eng = RecordReaderBuilder::new(SourceDescriptor::InMemoryBytes {
        data: b"a,a\n1,2\n".to_vec(),
    })
    .build()
    .expect("build");
    assert!(matches!(eng.read_headers(&mut cache), HeaderOutcome::Ready));
    match eng.next_record() {
        PullOutcome::Record(CsvRecord::FieldMap(ps)) => {
            assert_eq!(ps.len(), 1);
            assert_eq!(ps[0].1.as_ref().map(|c| c.0.clone()), Some(b"2".to_vec()));
        }
        _ => panic!("expected a map record"),
    }
}

#[test]
fn malformed_header_row_fails_with_syntax_issue() {
    let mut cache = StringCache::new();
    let mut eng = amem(b"\"a\n1\n").build().expect("build");
    match eng.read_headers(&mut cache) {
        HeaderOutcome::Failed(ReaderError::Header(osv::HeaderIssue::Syntax)) => {}
        _ => panic!("expected a header syntax failure"),
    }
}

#[test]
fn feeding_after_finish_changes_nothing() {
    let mut cache = StringCache::new();
    let mut eng = RecordReaderBuilder::new(SourceDescriptor::CallbackStream)
        .result_type(ResultType::Array)
        .build()
        .expect("build");
    eng.feed(&b"a\n1\n".to_vec());
    eng.finish();
    eng.feed(&b"2\n".to_vec());
    assert!(matches!(eng.read_headers(&mut cache), HeaderOutcome::Ready));
    assert!(matches!(eng.next_record(), PullOutcome::Record(_)));
    assert!(matches!(eng.next_record(), PullOutcome::Finished));
}

#[test]
fn empty_input_has_no_headers_and_no_records() {
    let (headers, recs) = arun(amem(b""));
    assert_eq!(headers.len(), 0);
    assert_eq!(recs.len(), 0);
}
