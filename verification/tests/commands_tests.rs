use baegun_core::commands::{
    config_from_request, epubcheck_command, path_like_command, progress_event,
    request_cache_dir, request_table_format, response_from_summary, ConvertRequest,
};
use baegun_core::models::{
    ConvertProgress, ConvertStage, ConvertSummary, TableFormat, ValidationResult,
};

fn request(input: &str) -> ConvertRequest {
    ConvertRequest {
        input_path: input.to_string(),
        output_path: None,
        api_key: None,
        model: None,
        title: None,
        author: None,
        language: None,
        publisher: None,
        table_format: None,
        extract_header: None,
        extract_footer: None,
        include_images: None,
        comic_mode: None,
        cache_dir: None,
        no_cache: None,
        validate: None,
        epubcheck_bin: None,
        keep_remote_file: None,
        fail_on_warn: None,
        debug_dir: None,
        quiet: None,
        verbose: None,
    }
}

#[test]
fn request_without_table_format_uses_html() {
    assert_eq!(request_table_format(&request("a.pdf")), Ok(TableFormat::Html));
}

#[test]
fn request_table_format_is_trimmed_and_case_insensitive() {
    let mut r = request("a.pdf");
    r.table_format = Some("  Markdown ".to_string());
    assert_eq!(request_table_format(&r), Ok(TableFormat::Markdown));
}

#[test]
fn request_with_unknown_table_format_is_refused() {
    let mut r = request("a.pdf");
    r.table_format = Some("CSV".to_string());
    assert_eq!(
        request_table_format(&r),
        Err("Invalid table format: Unsupported table format 'csv'. Expected one of: html, markdown".to_string())
    );
}

#[test]
fn request_cache_dir_is_trimmed_and_blank_means_none() {
    let mut r = request("a.pdf");
    assert_eq!(request_cache_dir(&r), None);
    r.cache_dir = Some("   ".to_string());
    assert_eq!(request_cache_dir(&r), None);
    r.cache_dir = Some("  /tmp/cache ".to_string());
    assert_eq!(request_cache_dir(&r), Some("/tmp/cache".to_string()));
}

#[test]
fn epubcheck_command_prefers_request_then_environment() {
    assert_eq!(
        epubcheck_command(Some(" /opt/epubcheck ".to_string()), Some("env-check".to_string())),
        "/opt/epubcheck"
    );
    assert_eq!(
        epubcheck_command(Some("  ".to_string()), Some("env-check".to_string())),
        "env-check"
    );
    assert_eq!(epubcheck_command(None, Some(" ".to_string())), "epubcheck");
    assert_eq!(epubcheck_command(None, None), "epubcheck");
}

#[test]
fn path_like_commands_are_absolute_or_nested() {
    assert!(path_like_command("/usr/bin/epubcheck"));
    assert!(path_like_command("tools/epubcheck"));
    assert!(!path_like_command("epubcheck"));
}

#[test]
fn config_from_request_fills_defaults() {
    let cfg = config_from_request(
        request("books/a.pdf"),
        Some("key".to_string()),
        TableFormat::Html,
        "cache".to_string(),
        "epubcheck".to_string(),
    );
    assert_eq!(cfg.input_pdf, "books/a.pdf");
    assert_eq!(cfg.output_epub, "books/a.epub");
    assert_eq!(cfg.api_key.as_deref(), Some("key"));
    assert_eq!(cfg.model, "mistral-ocr-latest");
    assert_eq!(cfg.language, "en");
    assert!(cfg.extract_header && cfg.extract_footer && cfg.include_images);
    assert!(!cfg.comic_mode && !cfg.no_cache && !cfg.validate);
    assert!(cfg.quiet && !cfg.verbose);
    assert_eq!(cfg.cache_dir, "cache");
}

#[test]
fn comic_mode_request_always_extracts_images() {
    let mut r = request("a.pdf");
    r.include_images = Some(false);
    r.comic_mode = Some(true);
    r.output_path = Some("out/b.epub".to_string());
    let cfg = config_from_request(r, None, TableFormat::Markdown, "c".to_string(), "e".to_string());
    assert!(cfg.include_images);
    assert!(cfg.comic_mode);
    assert_eq!(cfg.output_epub, "out/b.epub");
    assert_eq!(cfg.table_format, TableFormat::Markdown);
}

#[test]
fn progress_event_carries_the_report() {
    let progress = ConvertProgress {
        stage: ConvertStage::Ocr,
        step: 2,
        total_steps: 5,
        message: "Checking OCR cache".to_string(),
        cache_hit: None,
    };
    let event = progress_event("in.pdf", "out.epub", &progress);
    assert_eq!(event.input_path, "in.pdf");
    assert_eq!(event.output_path, "out.epub");
    assert_eq!(event.stage, ConvertStage::Ocr);
    assert_eq!(event.step, 2);
    assert_eq!(event.total_steps, 5);
    assert_eq!(event.message, "Checking OCR cache");
    assert_eq!(event.cache_hit, None);
}

#[test]
fn response_counts_validation_issues_or_zero() {
    let mut summary = ConvertSummary {
        output_path: "out.epub".to_string(),
        pages_processed: 3,
        chapters: 2,
        images: 1,
        cache_hit: true,
        validation: None,
    };
    let plain = response_from_summary(&summary);
    assert_eq!(plain.validation_warnings, 0);
    assert_eq!(plain.validation_errors, 0);
    assert_eq!(plain.pages_processed, 3);
    assert!(plain.cache_hit);
    summary.validation = Some(ValidationResult {
        warnings: 4,
        errors: 1,
        passed: false,
        raw_output: String::new(),
    });
    let checked = response_from_summary(&summary);
    assert_eq!(checked.validation_warnings, 4);
    assert_eq!(checked.validation_errors, 1);
    assert_eq!(checked.output_path, "out.epub");
}
