//! End-to-end scenarios: whole inputs driven through the builder and the
//! engine, in both record shapes.

use osv::{
    CloseAction, CowStr, CsvRecord, HeaderOutcome, PullOutcome, ReaderError,
    RecordReaderBuilder, ResultType, SourceDescriptor, StringCache, StringCacheKey,
    SyntaxIssue,
};

fn mem(data: &[u8]) -> RecordReaderBuilder {
    RecordReaderBuilder::new(SourceDescriptor::InMemoryBytes { data: data.to_vec() })
}

fn run(b: RecordReaderBuilder) -> (StringCache, Vec<Vec<u8>>, Vec<Result<CsvRecord, ReaderError>>) {
    let mut cache = StringCache::new();
    let mut eng = b.build().expect("build");
    match eng.read_headers(&mut cache) {
        HeaderOutcome::Ready => {}
        HeaderOutcome::Failed(e) => panic!("header failure: {:?}", e),
        _ => panic!("headers not ready"),
    }
    let mut headers: Vec<Vec<u8>> = Vec::new();
    for k in eng.header_handles() {
        headers.push(cache.text_of(*k).expect("handle").clone());
    }
    let mut out = Vec::new();
    loop {
        match eng.next_record() {
            PullOutcome::Record(r) => out.push(Ok(r)),
            PullOutcome::Finished => break,
            PullOutcome::Failed(e) => {
                out.push(Err(e));
                break;
            }
            PullOutcome::NeedInput => panic!("input was already complete"),
            PullOutcome::NotReady => panic!("engine not ready"),
        }
    }
    (cache, headers, out)
}

fn field<'a>(
    cache: &StringCache,
    ps: &'a [(StringCacheKey, Option<CowStr>)],
    name: &str,
) -> Option<Vec<u8>> {
    for (k, v) in ps {
        if cache.text_of(*k).expect("handle").as_slice() == name.as_bytes() {
            return v.as_ref().map(|c| c.0.clone());
        }
    }
    panic!("no column named {name}");
}

fn as_map(r: &CsvRecord) -> &Vec<(StringCacheKey, Option<CowStr>)> {
    match r {
        CsvRecord::FieldMap(ps) => ps,
        _ => panic!("expected a map record"),
    }
}

fn as_list(r: &CsvRecord) -> Vec<Option<Vec<u8>>> {
    match r {
        CsvRecord::FieldList(vs) => vs.iter().map(|v| v.as_ref().map(|c| c.0.clone())).collect(),
        _ => panic!("expected a list record"),
    }
}

#[test]
fn scenario_empty_and_shared_headers_map() {
    let (cache, headers, recs) = run(mem(b"a,b,c\n1,,3"));
    assert_eq!(headers, vec![b"a".to_vec(), b"b".to_vec(), b"c".to_vec()]);
    assert_eq!(recs.len(), 1);
    let m = as_map(recs[0].as_ref().unwrap());
    assert_eq!(field(&cache, m, "a"), Some(b"1".to_vec()));
    assert_eq!(field(&cache, m, "b"), Some(b"".to_vec()));
    assert_eq!(field(&cache, m, "c"), Some(b"3".to_vec()));
}

#[test]
fn scenario_empty_and_shared_headers_list() {
    let (_, _, recs) = run(mem(b"a,b,c\n1,,3").result_type(ResultType::Array));
    assert_eq!(recs.len(), 1);
    let vs = as_list(recs[0].as_ref().unwrap());
    assert_eq!(
        vs,
        vec![Some(b"1".to_vec()), Some(b"".to_vec()), Some(b"3".to_vec())]
    );
}

#[test]
fn scenario_flexible_default_fills_short_row() {
    let (cache, _, recs) = run(
        mem(b"a,b\n1")
            .flexible(true)
            .flexible_default(Some(b"X".to_vec())),
    );
    assert_eq!(recs.len(), 1);
    let m = as_map(recs[0].as_ref().unwrap());
    assert_eq!(field(&cache, m, "a"), Some(b"1".to_vec()));
    assert_eq!(field(&cache, m, "b"), Some(b"X".to_vec()));
}

#[test]
fn scenario_null_marker_reads_as_null() {
    let (cache, _, recs) = run(mem(b"a,b\nNULL,2").null_string(Some(b"NULL".to_vec())));
    assert_eq!(recs.len(), 1);
    let m = as_map(recs[0].as_ref().unwrap());
    assert_eq!(field(&cache, m, "a"), None);
    assert_eq!(field(&cache, m, "b"), Some(b"2".to_vec()));
}

#[test]
fn scenario_synthesized_headers() {
    let (cache, headers, recs) = run(mem(b"1,2,3").has_headers(false));
    assert_eq!(headers, vec![b"c0".to_vec(), b"c1".to_vec(), b"c2".to_vec()]);
    assert_eq!(recs.len(), 1);
    let m = as_map(recs[0].as_ref().unwrap());
    assert_eq!(field(&cache, m, "c0"), Some(b"1".to_vec()));
    assert_eq!(field(&cache, m, "c1"), Some(b"2".to_vec()));
    assert_eq!(field(&cache, m, "c2"), Some(b"3".to_vec()));
}

#[test]
fn scenario_borrowed_descriptor_never_closed() {
    let mut cache = StringCache::new();
    let mut eng = RecordReaderBuilder::new(SourceDescriptor::BorrowedDescriptor { fd: 7 })
        .build()
        .expect("build");
    eng.feed(&b"a,b\n1,2\n".to_vec());
    eng.finish();
    assert!(matches!(eng.read_headers(&mut cache), HeaderOutcome::Ready));
    assert!(matches!(eng.next_record(), PullOutcome::Record(_)));
    let action: CloseAction = eng.close(&mut cache);
    assert!(!action.close_handle);
}

#[test]
fn scenario_owned_source_closed() {
    let mut cache = StringCache::new();
    let mut eng = mem(b"a\n1\n").build().expect("build");
    assert!(matches!(eng.read_headers(&mut cache), HeaderOutcome::Ready));
    let action = eng.close(&mut cache);
    assert!(action.close_handle);
}

#[test]
fn scenario_early_disposal_mid_stream() {
    let mut data: Vec<u8> = b"a,b\n".to_vec();
    for i in 0..100_000u32 {
        data.extend_from_slice(format!("{i},{i}\n").as_bytes());
    }
    let mut cache = StringCache::new();
    let mut eng = mem(&data).build().expect("build");
    assert!(matches!(eng.read_headers(&mut cache), HeaderOutcome::Ready));
    for _ in 0..10 {
        match eng.next_record() {
            PullOutcome::Record(_) => {}
            o => panic!("expected a record, got {:?}", discriminant_name(&o)),
        }
    }
    // the consumer walks away after ten records; disposal must still
    // release the handles and leave the engine closed without error
    let handles: Vec<StringCacheKey> = eng.header_handles().clone();
    let action = eng.close(&mut cache);
    assert!(action.close_handle);
    for k in handles {
        assert_eq!(cache.count_of(k), Some(0));
    }
    assert!(matches!(eng.next_record(), PullOutcome::Finished));
}

fn discriminant_name(o: &PullOutcome) -> &'static str {
    match o {
        PullOutcome::NotReady => "NotReady",
        PullOutcome::NeedInput => "NeedInput",
        PullOutcome::Record(_) => "Record",
        PullOutcome::Finished => "Finished",
        PullOutcome::Failed(_) => "Failed",
    }
}

#[test]
fn round_trip_rows_and_columns() {
    // four well-formed rows of three columns under default options: the
    // header row plus three records, each with three entries
    let (_, headers, recs) = run(mem(b"h1,h2,h3\na,b,c\nd,e,f\ng,h,i\n").result_type(ResultType::Array));
    assert_eq!(headers.len(), 3);
    assert_eq!(recs.len(), 3);
    for r in &recs {
        assert_eq!(as_list(r.as_ref().unwrap()).len(), 3);
    }
    assert_eq!(
        as_list(recs[2].as_ref().unwrap()),
        vec![Some(b"g".to_vec()), Some(b"h".to_vec()), Some(b"i".to_vec())]
    );
}

#[test]
fn field_count_enforced_when_not_flexible() {
    let (_, _, recs) = run(mem(b"a,b\n1,2,3"));
    assert_eq!(recs.len(), 1);
    match recs[0] {
        Err(ReaderError::RecordSyntax(SyntaxIssue::FieldCount { got, want })) => {
            assert_eq!(got, 3);
            assert_eq!(want, 2);
        }
        ref other => panic!("expected a field-count error, got {:?}", other.is_ok()),
    }
}

#[test]
fn flexible_list_keeps_extra_fields_map_drops_them() {
    let (_, _, recs) = run(mem(b"a,b\n1,2,3").flexible(true).result_type(ResultType::Array));
    let vs = as_list(recs[0].as_ref().unwrap());
    assert_eq!(
        vs,
        vec![Some(b"1".to_vec()), Some(b"2".to_vec()), Some(b"3".to_vec())]
    );

    let (cache, _, recs) = run(mem(b"a,b\n1,2,3").flexible(true));
    let m = as_map(recs[0].as_ref().unwrap());
    assert_eq!(m.len(), 2);
    assert_eq!(field(&cache, m, "a"), Some(b"1".to_vec()));
    assert_eq!(field(&cache, m, "b"), Some(b"2".to_vec()));
}

#[test]
fn flexible_short_row_without_default_is_null_filled() {
    let (cache, _, recs) = run(mem(b"a,b,c\n1").flexible(true));
    let m = as_map(recs[0].as_ref().unwrap());
    assert_eq!(field(&cache, m, "a"), Some(b"1".to_vec()));
    assert_eq!(field(&cache, m, "b"), None);
    assert_eq!(field(&cache, m, "c"), None);

    let (_, _, recs) = run(mem(b"a,b,c\n1").flexible(true).result_type(ResultType::Array));
    let vs = as_list(recs[0].as_ref().unwrap());
    assert_eq!(vs, vec![Some(b"1".to_vec()), None, None]);
}
