use corpus_cleaner::codec::{decode, is_blank, ErrMark};
use corpus_cleaner::dedup::Deduplicator;
use corpus_cleaner::filters::{Filter, FilterKind, SpamFilter, StatusFilter, Utf8Filter};
use corpus_cleaner::pipeline::Pipeline;
use corpus_cleaner::processor::{process_lines, total_admitted, FileOutcome};

fn cleaning_pipeline() -> Pipeline {
    Pipeline::new()
        .add_filter(FilterKind::Status(StatusFilter))
        .with_deduplication(Deduplicator::new())
}

#[test]
fn decode_rejects_malformed_lines() {
    assert!(decode("not json").is_none());
    assert!(decode("").is_none());
    assert!(decode("{\"signature\":").is_none());
    assert!(decode("{\"signature\":\"a\"}").is_some());
}

#[test]
fn decode_reads_identity() {
    let rec = decode("{\"signature\":\"abc\",\"n\":1}").unwrap();
    assert_eq!(rec.identity().clone(), Some("abc".to_string()));
    let no_sig = decode("{\"n\":1}").unwrap();
    assert_eq!(no_sig.identity().clone(), None);
    let non_string_sig = decode("{\"signature\":123}").unwrap();
    assert_eq!(non_string_sig.identity().clone(), None);
    let array = decode("[1,2,3]").unwrap();
    assert_eq!(array.identity().clone(), None);
}

#[test]
fn decode_reads_error_indicator() {
    let null_err = decode("{\"signature\":\"a\",\"meta\":{\"err\":null}}").unwrap();
    assert_eq!(null_err.err_mark(), ErrMark::Null);
    let present_err = decode("{\"signature\":\"b\",\"meta\":{\"err\":{\"code\":1}}}").unwrap();
    assert_eq!(present_err.err_mark(), ErrMark::Present);
    let no_meta = decode("{\"signature\":\"c\"}").unwrap();
    assert_eq!(no_meta.err_mark(), ErrMark::Absent);
}

#[test]
fn encode_is_canonical_and_structurally_lossless() {
    let rec = decode(" { \"b\" : 1 , \"a\" : null } ").unwrap();
    assert_eq!(rec.encode(), "{\"a\":null,\"b\":1}".to_string());
    let again = decode(&rec.encode()).unwrap();
    assert_eq!(again.encode(), rec.encode());
}

#[test]
fn validity_filter_examples() {
    let kept = decode("{\"signature\":\"a\",\"meta\":{\"err\":null}}").unwrap();
    assert!(StatusFilter.keep(&kept));
    let dropped = decode("{\"signature\":\"b\",\"meta\":{\"err\":{\"code\":1}}}").unwrap();
    assert!(!StatusFilter.keep(&dropped));
    let no_meta = decode("{\"signature\":\"c\"}").unwrap();
    assert!(StatusFilter.keep(&no_meta));
}

#[test]
fn placeholder_filters_keep_everything() {
    let rec = decode("{\"signature\":\"b\",\"meta\":{\"err\":{\"code\":1}}}").unwrap();
    assert!(SpamFilter { min_lamports: 5000 }.keep(&rec));
    assert!(Utf8Filter.keep(&rec));
}

#[test]
fn claim_is_idempotent() {
    let mut dedup = Deduplicator::new();
    let first = decode("{\"signature\":\"x\",\"n\":1}").unwrap();
    let same_identity = decode("{\"signature\":\"x\",\"n\":2}").unwrap();
    let other = decode("{\"signature\":\"y\"}").unwrap();
    assert!(dedup.is_unique(&first));
    assert!(!dedup.is_unique(&same_identity));
    assert!(dedup.is_unique(&other));
    assert!(!dedup.is_unique(&first));
}

#[test]
fn missing_identity_is_never_admitted() {
    let mut dedup = Deduplicator::new();
    let no_sig = decode("{\"meta\":{\"err\":null},\"n\":1}").unwrap();
    assert!(!dedup.is_unique(&no_sig));
    let mut pipeline = cleaning_pipeline();
    assert!(!pipeline.process(&no_sig));
    assert!(!pipeline.process(&no_sig));
}

#[test]
fn pipeline_admits_first_claim_only() {
    let mut pipeline = cleaning_pipeline();
    let rec = decode("{\"signature\":\"a\"}").unwrap();
    assert!(pipeline.process(&rec));
    assert!(!pipeline.process(&rec));
}

#[test]
fn dropped_record_does_not_claim_its_identity() {
    let mut pipeline = cleaning_pipeline();
    let failed = decode("{\"signature\":\"z\",\"meta\":{\"err\":1}}").unwrap();
    assert!(!pipeline.process(&failed));
    let healthy = decode("{\"signature\":\"z\",\"meta\":{\"err\":null}}").unwrap();
    assert!(pipeline.process(&healthy));
}

#[test]
fn pipeline_without_filters_or_dedup_keeps_all() {
    let mut pipeline = Pipeline::new();
    let rec = decode("{\"n\":1}").unwrap();
    assert!(pipeline.process(&rec));
    assert!(pipeline.process(&rec));
}

#[test]
fn blank_lines_are_recognized() {
    assert!(is_blank(""));
    assert!(is_blank("   \t \r"));
    assert!(!is_blank("  x "));
}

#[test]
fn malformed_and_blank_lines_are_skipped() {
    let mut pipeline = cleaning_pipeline();
    let lines = vec![
        "{\"signature\":\"a\"}".to_string(),
        "not json".to_string(),
        "".to_string(),
        "   ".to_string(),
        "{\"signature\":\"b\"}".to_string(),
        "{broken".to_string(),
    ];
    let out = process_lines(&mut pipeline, &lines);
    assert_eq!(
        out,
        vec!["{\"signature\":\"a\"}".to_string(), "{\"signature\":\"b\"}".to_string()],
    );
}

#[test]
fn output_preserves_input_order() {
    let mut pipeline = cleaning_pipeline();
    let lines = vec![
        "{\"signature\":\"a\"}".to_string(),
        "{\"meta\":{\"err\":7},\"signature\":\"b\"}".to_string(),
        "{\"signature\":\"c\"}".to_string(),
    ];
    let out = process_lines(&mut pipeline, &lines);
    assert_eq!(
        out,
        vec!["{\"signature\":\"a\"}".to_string(), "{\"signature\":\"c\"}".to_string()],
    );
}

#[test]
fn cross_file_duplicate_is_admitted_once() {
    let mut pipeline = cleaning_pipeline();
    let file_a = vec!["{\"signature\":\"x\"}".to_string()];
    let file_b = vec!["{\"signature\":\"x\"}".to_string(), "{\"signature\":\"y\"}".to_string()];
    let out_a = process_lines(&mut pipeline, &file_a);
    let out_b = process_lines(&mut pipeline, &file_b);
    let with_x = out_a
        .iter()
        .chain(out_b.iter())
        .filter(|line| line.contains("\"signature\":\"x\""))
        .count();
    assert_eq!(with_x, 1);
    assert_eq!(out_a, vec!["{\"signature\":\"x\"}".to_string()]);
    assert_eq!(out_b, vec!["{\"signature\":\"y\"}".to_string()]);
}

#[test]
fn totals_are_summed_per_file() {
    let outcomes = vec![
        FileOutcome { admitted: 2, error: None },
        FileOutcome { admitted: 0, error: Some("cannot open input".to_string()) },
        FileOutcome { admitted: 3, error: None },
    ];
    assert_eq!(total_admitted(&outcomes), 5);
}

#[test]
fn totals_saturate_instead_of_wrapping() {
    let outcomes = vec![
        FileOutcome { admitted: u64::MAX, error: None },
        FileOutcome { admitted: 1, error: None },
    ];
    assert_eq!(total_admitted(&outcomes), u64::MAX);
}
