use baegun_core::batch::{
    build_batch_failure_error, derive_batch_output_path, is_book_file, resolve_api_key,
    unique_batch_output_path, BatchTally,
};
use baegun_core::errors::{BaegunError, ErrorKind};
use std::path::{Path, PathBuf};

#[test]
fn book_detection_is_case_insensitive() {
    assert!(is_book_file("sample.pdf"));
    assert!(is_book_file("sample.PDF"));
    assert!(is_book_file("sample.cbz"));
    assert!(is_book_file("sample.CBZ"));
    assert!(!is_book_file("sample.txt"));
}

fn as_str(p: &Path) -> &str {
    p.to_str().expect("test paths are UTF-8")
}

#[test]
fn batch_output_preserves_relative_path_structure() {
    let input_dir = PathBuf::from("input");
    let output_dir = PathBuf::from("output");
    let input_pdf = input_dir.join("nested").join("book.pdf");

    let output = derive_batch_output_path(as_str(&input_pdf), as_str(&input_dir), as_str(&output_dir));
    assert_eq!(PathBuf::from(output), output_dir.join("nested").join("book.epub"));
}

#[test]
fn batch_output_suffixes_case_insensitive_pdf_cbz_name_collisions() {
    let mut used = Vec::new();
    let input_dir = PathBuf::from("input");
    let output_dir = PathBuf::from("output");
    let pdf = derive_batch_output_path(as_str(&input_dir.join("Book.pdf")), as_str(&input_dir), as_str(&output_dir));
    let cbz = derive_batch_output_path(as_str(&input_dir.join("book.cbz")), as_str(&input_dir), as_str(&output_dir));
    let first = unique_batch_output_path(pdf, &mut used);
    let second = unique_batch_output_path(cbz, &mut used);
    assert_eq!(PathBuf::from(first), PathBuf::from("output/Book.epub"));
    assert_eq!(PathBuf::from(second), PathBuf::from("output/book-2.epub"));
}

#[test]
fn third_collision_takes_the_next_free_suffix() {
    let mut used = Vec::new();
    let a = unique_batch_output_path("out/a.epub".to_string(), &mut used);
    let b = unique_batch_output_path("out/A.epub".to_string(), &mut used);
    let c = unique_batch_output_path("out/a.EPUB".to_string(), &mut used);
    assert_eq!(a, "out/a.epub");
    assert_eq!(b, "out/A-2.epub");
    assert_eq!(c, "out/a-3.epub");
    assert_eq!(used, vec!["out/a.epub", "out/a-2.epub", "out/a-3.epub"]);
}

#[test]
fn blank_api_keys_count_as_missing() {
    assert_eq!(resolve_api_key(Some(" ".to_string()), Some("env".to_string())), None);
    assert_eq!(resolve_api_key(None, Some("env".to_string())), Some("env".to_string()));
    assert_eq!(resolve_api_key(Some("k".to_string()), None), Some("k".to_string()));
}

#[test]
fn batch_failure_takes_first_failure_kind() {
    let failures = vec![
        ("a.pdf".to_string(), BaegunError::api("x".to_string())),
        ("b.pdf".to_string(), BaegunError::bad_args("y".to_string())),
    ];
    let error = build_batch_failure_error(3, &failures);
    assert_eq!(error.kind, ErrorKind::Api);
    assert_eq!(
        error.message,
        "Batch conversion completed with 2 failure(s) and 3 success(es)."
    );
}

#[test]
fn tally_reports_totals_and_failures() {
    let mut tally = BatchTally::new();
    tally.record_failure("b.pdf".to_string(), BaegunError::internal("boom".to_string()));
    let lines = tally.report_lines();
    assert_eq!(
        lines,
        vec!["", "Batch complete: 0 succeeded, 1 failed.", "", "Failures:", "  b.pdf: boom"]
    );
    assert_eq!(tally.outcome().unwrap_err().kind, ErrorKind::Internal);
}
