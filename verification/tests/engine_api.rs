//! The engine's lifecycle, incremental feeding, the interner's counting,
//! configuration and source validation, and the compressed-source path.

use osv::{
    CacheError, ConfigError, EngineState, HeaderOutcome, PullOutcome, ReadMode,
    ReaderError, RecordReaderBuilder, ResultType, SourceDescriptor, SourceError,
    SourceKind, StringCache,
};
use std::io::Write;

fn bmem(data: &[u8]) -> RecordReaderBuilder {
    RecordReaderBuilder::new(SourceDescriptor::InMemoryBytes { data: data.to_vec() })
}

#[test]
fn state_machine_order_is_enforced() {
    let mut cache = StringCache::new();
    let mut eng = bmem(b"a\n1\n").build().expect("build");
    assert_eq!(eng.state(), EngineState::Created);
    assert!(matches!(eng.next_record(), PullOutcome::NotReady));
    assert!(matches!(eng.read_headers(&mut cache), HeaderOutcome::Ready));
    assert_eq!(eng.state(), EngineState::HeaderRead);
    assert!(matches!(eng.read_headers(&mut cache), HeaderOutcome::AlreadyDone));
    assert!(matches!(eng.next_record(), PullOutcome::Record(_)));
    assert_eq!(eng.state(), EngineState::Streaming);
    assert!(matches!(eng.next_record(), PullOutcome::Finished));
    assert_eq!(eng.state(), EngineState::Exhausted);
    assert!(matches!(eng.next_record(), PullOutcome::Finished));
    eng.close(&mut cache);
    assert_eq!(eng.state(), EngineState::Closed);
    assert!(matches!(eng.next_record(), PullOutcome::Finished));
}

#[test]
fn incremental_feeding_resumes_rows() {
    let mut cache = StringCache::new();
    let mut eng = RecordReaderBuilder::new(SourceDescriptor::CallbackStream)
        .result_type(ResultType::Array)
        .build()
        .expect("build");
    assert_eq!(eng.read_mode(), ReadMode::SingleThreaded);
    assert!(matches!(eng.read_headers(&mut cache), HeaderOutcome::NeedInput));
    eng.feed(&b"a,b\n1,".to_vec());
    assert!(matches!(eng.read_headers(&mut cache), HeaderOutcome::Ready));
    // the record's row is still unterminated and the input not finished
    assert!(matches!(eng.next_record(), PullOutcome::NeedInput));
    eng.feed(&b"2\n3,4\n".to_vec());
    assert!(matches!(eng.next_record(), PullOutcome::Record(_)));
    eng.compact();
    assert!(matches!(eng.next_record(), PullOutcome::Record(_)));
    assert!(matches!(eng.next_record(), PullOutcome::NeedInput));
    eng.finish();
    assert!(matches!(eng.next_record(), PullOutcome::Finished));
}

#[test]
fn transferable_sources_use_a_worker() {
    let eng = bmem(b"a\n").build().expect("build");
    assert_eq!(eng.read_mode(), ReadMode::MultiThreaded);
    let eng = RecordReaderBuilder::new(SourceDescriptor::CallbackStream)
        .build()
        .expect("build");
    assert_eq!(eng.read_mode(), ReadMode::SingleThreaded);
}

#[test]
fn interning_twice_returns_same_handle_and_counts() {
    let mut cache = StringCache::new();
    let names = vec![b"name".to_vec()];
    let k1 = cache.intern_many(&names).expect("intern")[0];
    assert_eq!(cache.count_of(k1), Some(1));
    let k2 = cache.intern_many(&names).expect("intern")[0];
    assert_eq!(k1, k2);
    assert_eq!(cache.count_of(k1), Some(2));
    cache.release(&vec![k1]);
    assert_eq!(cache.count_of(k1), Some(1));
    cache.release(&vec![k1]);
    assert_eq!(cache.count_of(k1), Some(0));
    // the text is never reclaimed: the handle still resolves
    assert_eq!(cache.text_of(k1).map(|t| t.clone()), Some(b"name".to_vec()));
}

#[test]
fn interning_a_batch_counts_per_occurrence() {
    let mut cache = StringCache::new();
    let names = vec![b"x".to_vec(), b"y".to_vec(), b"x".to_vec()];
    let ks = cache.intern_many(&names).expect("intern");
    assert_eq!(ks.len(), 3);
    assert_eq!(ks[0], ks[2]);
    assert_ne!(ks[0], ks[1]);
    assert_eq!(cache.count_of(ks[0]), Some(2));
    assert_eq!(cache.count_of(ks[1]), Some(1));
    assert_eq!(cache.slot_count(), 2);
}

#[test]
fn release_of_foreign_handle_changes_nothing() {
    let mut cache = StringCache::new();
    let ks = cache.intern_many(&vec![b"x".to_vec()]).expect("intern");
    let mut other = StringCache::new();
    let alien = other
        .intern_many(&vec![b"p".to_vec(), b"q".to_vec()])
        .expect("intern");
    cache.release(&vec![alien[1]]);
    assert_eq!(cache.count_of(ks[0]), Some(1));
    assert_eq!(cache.slot_count(), 1);
}

#[test]
fn result_type_names() {
    assert_eq!(ResultType::from_str("hash"), Some(ResultType::Hash));
    assert_eq!(ResultType::from_str("array"), Some(ResultType::Array));
    assert_eq!(ResultType::from_str("table"), None);
    assert_eq!(ResultType::from_str(""), None);
}

#[test]
fn trim_names() {
    assert_eq!(osv::Trim::from_name("all"), Some(osv::Trim::All));
    assert_eq!(osv::Trim::from_name("headers"), Some(osv::Trim::Headers));
    assert_eq!(osv::Trim::from_name("fields"), Some(osv::Trim::Fields));
    assert_eq!(osv::Trim::from_name("rows"), None);
}

#[test]
fn configuration_errors_fail_build() {
    let e = bmem(b"").delimiter(b'"').build();
    assert!(matches!(
        e,
        Err(ReaderError::Config(ConfigError::DelimiterEqualsQuote))
    ));
    let e = bmem(b"").delimiter(b'\n').build();
    assert!(matches!(
        e,
        Err(ReaderError::Config(ConfigError::DelimiterIsTerminator))
    ));
    let e = bmem(b"").quote_char(b'\r').build();
    assert!(matches!(
        e,
        Err(ReaderError::Config(ConfigError::QuoteIsTerminator))
    ));
    let e = bmem(b"").flexible_default(Some(b"X".to_vec())).build();
    assert!(matches!(
        e,
        Err(ReaderError::Config(ConfigError::DefaultWithoutFlexible))
    ));
    let e = bmem(b"").channel_capacity(0).build();
    assert!(matches!(e, Err(ReaderError::Config(ConfigError::ZeroCapacity))));
}

#[test]
fn invalid_descriptor_fails_build() {
    let e = RecordReaderBuilder::new(SourceDescriptor::BorrowedDescriptor { fd: -1 }).build();
    assert!(matches!(
        e,
        Err(ReaderError::Source(SourceError::InvalidHandle(-1)))
    ));
}

#[test]
fn path_suffix_classifies_compression() {
    let eng = RecordReaderBuilder::new(SourceDescriptor::FilePath {
        path: b"data/input.csv.gz".to_vec(),
    })
    .build()
    .expect("build");
    assert_eq!(eng.source_info().kind, SourceKind::CompressedFile);
    let eng = RecordReaderBuilder::new(SourceDescriptor::FilePath {
        path: b"data/input.csv".to_vec(),
    })
    .build()
    .expect("build");
    assert_eq!(eng.source_info().kind, SourceKind::PlainFile);
}

#[test]
fn compressed_bytes_materialize_and_stream() {
    let mut enc = flate2::write::GzEncoder::new(Vec::new(), flate2::Compression::default());
    enc.write_all(b"a,b\n1,2\n").expect("compress");
    let gz = enc.finish().expect("compress");
    assert_ne!(gz, b"a,b\n1,2\n".to_vec());

    let plain = osv::materialize_compressed(&gz).expect("decompress");
    assert_eq!(plain, b"a,b\n1,2\n".to_vec());

    let mut cache = StringCache::new();
    let mut eng = RecordReaderBuilder::new(SourceDescriptor::FilePath {
        path: b"input.csv.gz".to_vec(),
    })
    .build()
    .expect("build");
    eng.feed(&plain);
    eng.finish();
    assert!(matches!(eng.read_headers(&mut cache), HeaderOutcome::Ready));
    assert!(matches!(eng.next_record(), PullOutcome::Record(_)));
    assert!(matches!(eng.next_record(), PullOutcome::Finished));
}

#[test]
fn corrupt_compressed_bytes_are_refused() {
    let garbage = b"not gzip at all".to_vec();
    assert_eq!(
        osv::materialize_compressed(&garbage),
        Err(SourceError::Open)
    );
}

#[test]
fn intern_failure_variant_is_reachable() {
    // the saturation error exists for counter exhaustion; it compares by
    // value like the other errors
    assert_eq!(CacheError::CounterSaturated, CacheError::CounterSaturated);
    assert!(matches!(
        ReaderError::Header(osv::HeaderIssue::Intern(CacheError::CounterSaturated)),
        ReaderError::Header(_)
    ));
}
