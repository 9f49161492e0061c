use baegun_core::cache::{
    cache_file_path, compute_cache_key, hash_source_bytes, metadata_cache_file_path,
    CACHE_KEY_VERSION,
};
use baegun_core::epub::{build_content_opf, build_cover_xhtml};
use baegun_core::errors::ErrorKind;
use baegun_core::metadata::{extract_pdf_metadata, missing_metadata, resolve_book_metadata};
use baegun_core::models::{
    BookMetadata, ConvertConfig, ConvertStage, MistralOcrResponse, OcrBackend, OcrImage,
    OcrPage, SourceFormat, TableFormat,
};
use baegun_core::normalize::normalize_to_rendered_book;
use baegun_core::pipeline::{
    check_source_signature, expected_source_format, progress_at, require_pdf, total_steps, verify_source_signature,
    ConversionRun, Milestone, Work,
};
use baegun_core::validate::evaluate_epubcheck;
use sha2::{Digest, Sha256};

const PIXEL_PNG: &str = "iVBORw0KGgoAAAANSUhEUgAAAAEAAAABCAQAAAC1HAwCAAAAC0lEQVR42mP8/x8AAwMCAO2V4x8AAAAASUVORK5CYII=";

fn fixture_config() -> ConvertConfig {
    ConvertConfig {
        input_pdf: "input/book.pdf".to_string(),
        output_epub: "output/book.epub".to_string(),
        api_key: None,
        provider: OcrBackend::Mistral,
        model: "mistral-ocr-latest".to_string(),
        title: None,
        author: None,
        language: "en".to_string(),
        publisher: None,
        table_format: TableFormat::Html,
        extract_header: true,
        extract_footer: true,
        include_images: true,
        comic_mode: false,
        cache_dir: "cache".to_string(),
        no_cache: false,
        validate: false,
        epubcheck_bin: "epubcheck".to_string(),
        keep_remote_file: false,
        fail_on_warn: false,
        debug_dir: None,
        quiet: true,
        verbose: false,
    }
}

fn page(index: usize, markdown: &str, images: Vec<OcrImage>) -> OcrPage {
    OcrPage {
        index,
        markdown: markdown.to_string(),
        images,
        tables: Vec::new(),
        header: None,
        footer: None,
    }
}

fn cover_payload() -> MistralOcrResponse {
    MistralOcrResponse {
        pages: vec![
            page(1, "# Chapter One\n\nReadable content.", Vec::new()),
            page(
                0,
                "![Cover](img-cover.png)",
                vec![OcrImage {
                    id: "img-cover.png".to_string(),
                    image_base64: Some(PIXEL_PNG.to_string()),
                }],
            ),
        ],
        model: Some("mistral-ocr-latest".to_string()),
    }
}

#[test]
fn source_hash_is_the_sha256_hex_digest() {
    assert_eq!(
        hash_source_bytes(b"abc"),
        "ba7816bf8f01cfea414140de5dae2223b00361a396177a9cb410ff61f20015ad"
    );
}

#[test]
fn cache_key_digests_pdf_and_ocr_settings() {
    let cfg = fixture_config();
    let pdf = b"%PDF-1.4\n";
    let mut hasher = Sha256::new();
    hasher.update(pdf);
    hasher.update(b"mistral");
    hasher.update(b"mistral-ocr-latest");
    hasher.update(b"html");
    hasher.update(b"1");
    hasher.update(b"1");
    hasher.update(b"1");
    hasher.update(CACHE_KEY_VERSION.as_bytes());
    let expected = format!("{:x}", hasher.finalize());
    assert_eq!(compute_cache_key(&cfg, pdf), expected);

    let mut other = fixture_config();
    other.table_format = TableFormat::Markdown;
    assert_ne!(compute_cache_key(&other, pdf), expected);
}

#[test]
fn cache_files_live_in_the_cache_directory() {
    let cfg = fixture_config();
    assert_eq!(cache_file_path(&cfg, "abc"), "cache/abc.ocr.json");
    assert_eq!(metadata_cache_file_path(&cfg, "abc"), "cache/abc.metadata.json");
}

#[test]
fn source_format_follows_the_extension_case_insensitively() {
    assert_eq!(expected_source_format("dir/Book.PDF").ok(), Some(SourceFormat::Pdf));
    assert_eq!(expected_source_format("comic.cbz").ok(), Some(SourceFormat::Cbz));
    let error = expected_source_format("notes.txt").unwrap_err();
    assert_eq!(error.kind, ErrorKind::BadArgs);
    assert_eq!(
        error.message,
        "Unsupported input extension '.txt'; expected .pdf or .cbz."
    );
    let error = expected_source_format("README").unwrap_err();
    assert_eq!(error.message, "Input must have a .pdf or .cbz extension.");
}

#[test]
fn signatures_must_match_the_extension() {
    assert_eq!(
        verify_source_signature("a.pdf", SourceFormat::Pdf, b"%PDF-1.7").ok(),
        Some(SourceFormat::Pdf)
    );
    assert_eq!(
        verify_source_signature("a.cbz", SourceFormat::Cbz, b"PK\x05\x06rest").ok(),
        Some(SourceFormat::Cbz)
    );
    let error = verify_source_signature("a.pdf", SourceFormat::Pdf, b"PK\x03\x04").unwrap_err();
    assert_eq!(error.kind, ErrorKind::BadArgs);
    assert_eq!(error.message, "Input 'a.pdf' does not have a valid PDF signature.");
    let error = verify_source_signature("a.cbz", SourceFormat::Cbz, b"%PDF").unwrap_err();
    assert_eq!(error.message, "Input 'a.cbz' does not have a valid CBZ signature.");
}

#[test]
fn pdf_only_entry_point_refuses_comics() {
    assert!(require_pdf(SourceFormat::Pdf).is_ok());
    let error = require_pdf(SourceFormat::Cbz).unwrap_err();
    assert_eq!(error.kind, ErrorKind::BadArgs);
    assert_eq!(error.message, "convert_pdf_to_epub requires a PDF input.");
}

#[test]
fn progress_reports_expected_stage_sequence() {
    let cached = [
        Milestone::ReadingInput,
        Milestone::CheckingCache,
        Milestone::CachedOcr,
        Milestone::Normalizing,
        Milestone::Packaging,
        Milestone::Complete,
    ];
    let reports: Vec<_> = cached
        .iter()
        .map(|m| progress_at(SourceFormat::Pdf, *m, false, true))
        .collect();
    let stages: Vec<_> = reports.iter().map(|p| p.stage).collect();
    assert_eq!(
        stages,
        vec![
            ConvertStage::ReadingInput,
            ConvertStage::Ocr,
            ConvertStage::Ocr,
            ConvertStage::Normalize,
            ConvertStage::PackageEpub,
            ConvertStage::Complete
        ]
    );
    let steps: Vec<_> = reports.iter().map(|p| p.step).collect();
    assert_eq!(steps, vec![1, 2, 2, 3, 4, 5]);
    assert!(reports.iter().all(|p| p.total_steps == 5));
    assert_eq!(reports[0].cache_hit, None);
    assert_eq!(reports[2].cache_hit, Some(true));
    assert_eq!(reports[2].message, "Using cached OCR payload");
    assert_eq!(reports[5].message, "Conversion complete");

    let validating = progress_at(SourceFormat::Pdf, Milestone::Validating, true, false);
    assert_eq!((validating.step, validating.total_steps), (5, 6));
    let comic = progress_at(SourceFormat::Cbz, Milestone::Packaging, true, true);
    assert_eq!(comic.message, "Packaging fixed-layout EPUB");
    assert_eq!((comic.step, comic.total_steps, comic.cache_hit), (3, 5, Some(false)));
    assert_eq!(total_steps(SourceFormat::Cbz, false), 4);
}

#[test]
fn exit_codes_are_distinct_and_nonzero() {
    let kinds = [
        ErrorKind::BadArgs,
        ErrorKind::Api,
        ErrorKind::OcrSchema,
        ErrorKind::Epub,
        ErrorKind::Validation,
        ErrorKind::Internal,
    ];
    let codes: Vec<i32> = kinds.iter().map(|k| k.exit_code()).collect();
    assert_eq!(codes, vec![2, 3, 4, 5, 6, 1]);
    for (i, a) in codes.iter().enumerate() {
        assert_ne!(*a, 0);
        for b in &codes[i + 1..] {
            assert_ne!(a, b);
        }
    }
}

#[test]
fn epubcheck_passes_clean_reports() {
    let result = evaluate_epubcheck(b"No errors or warnings detected.", b"", true, false)
        .expect("clean report passes");
    assert!(result.passed);
    assert_eq!((result.warnings, result.errors), (0, 0));
    assert_eq!(result.raw_output, "No errors or warnings detected.");
}

#[test]
fn epubcheck_failures_count_issues_and_keep_the_report() {
    let error = evaluate_epubcheck(b"ERROR(RSC-005): bad", b"WARNING(X): meh", false, false)
        .expect_err("a failed run fails");
    assert_eq!(error.kind, ErrorKind::Validation);
    assert_eq!(
        error.message,
        "epubcheck reported validation issues (errors: 1, warnings: 1)\nERROR(RSC-005): bad\nWARNING(X): meh"
    );
}

#[test]
fn epubcheck_warnings_fail_only_when_asked() {
    let ok = evaluate_epubcheck(b"WARNING: a\nWARNING: b", b"", true, false).expect("warnings pass");
    assert!(ok.passed);
    assert_eq!(ok.warnings, 2);
    let error = evaluate_epubcheck(b"WARNING: a", b"", true, true).expect_err("warnings fail");
    assert_eq!(
        error.message,
        "epubcheck reported validation issues (errors: 0, warnings: 1); fail-on-warn is enabled\nWARNING: a"
    );
}

#[test]
fn rendered_book_orders_pages_and_uses_first_image_as_cover() {
    let cfg = fixture_config();
    let book = normalize_to_rendered_book(
        &cover_payload(),
        &cfg,
        &BookMetadata::empty(),
        &cfg.input_pdf,
        "hash",
    )
    .expect("payload has content");
    assert_eq!(book.chapters.len(), 2);
    assert_eq!(book.chapters[0].title, "Introduction");
    assert_eq!(book.chapters[1].title, "Chapter One");
    assert_eq!(book.chapters[0].id, "chapter-001");
    assert!(book.chapters[0].file_name.starts_with("chapter-001-"));
    assert!(book.chapters[1].file_name.starts_with("chapter-002-"));
    assert!(book.chapters[0].xhtml.contains("../images/img-cover.png"));
    assert_eq!(book.title, "Introduction");
    assert_eq!(book.language, "en");
    assert_eq!(book.images.len(), 1);
    assert_eq!(book.images[0].file_name, "img-cover.png");
    assert_eq!(book.images[0].media_type, "image/png");
    assert_eq!(book.cover_image.as_deref(), Some("img-cover.png"));
    assert_eq!(book.source_hash, "hash");

    let opf = build_content_opf(&book);
    assert!(opf.contains("properties=\"cover-image\""));
    assert!(opf.contains("href=\"images/img-cover.png\""));
    assert!(build_cover_xhtml(&book, "img-cover.png").contains("../images/img-cover.png"));
}

#[test]
fn disabled_body_images_still_keep_the_cover_image() {
    let mut cfg = fixture_config();
    cfg.include_images = false;
    let book = normalize_to_rendered_book(
        &cover_payload(),
        &cfg,
        &BookMetadata::empty(),
        &cfg.input_pdf,
        "hash",
    )
    .expect("payload has content");
    assert_eq!(book.images.len(), 1);
    assert_eq!(book.cover_image.as_deref(), Some("img-cover.png"));
    assert!(!book.chapters.iter().any(|c| c.xhtml.contains("../images/")));
    let opf = build_content_opf(&book);
    assert!(opf.contains("href=\"images/img-cover.png\""));
}

#[test]
fn undecodable_image_is_an_ocr_schema_error() {
    let cfg = fixture_config();
    let payload = MistralOcrResponse {
        pages: vec![page(
            0,
            "Text",
            vec![OcrImage {
                id: "img.png".to_string(),
                image_base64: Some("***".to_string()),
            }],
        )],
        model: None,
    };
    let error = normalize_to_rendered_book(&payload, &cfg, &BookMetadata::empty(), "b.pdf", "h")
        .expect_err("bad base64 fails");
    assert_eq!(error.kind, ErrorKind::OcrSchema);
    assert!(error.message.starts_with("Failed decoding OCR image 'img.png' as base64"));
}

#[test]
fn empty_payload_has_no_readable_content() {
    let cfg = fixture_config();
    let payload = MistralOcrResponse {
        pages: vec![page(0, "   \n", Vec::new())],
        model: None,
    };
    let error = normalize_to_rendered_book(&payload, &cfg, &BookMetadata::empty(), "b.pdf", "h")
        .expect_err("nothing to render");
    assert_eq!(error.kind, ErrorKind::OcrSchema);
    assert_eq!(error.message, "No readable content found after OCR normalization.");
}

#[test]
fn pdf_info_metadata_populates_the_package_document() {
    let pdf = br#"%PDF-1.4
1 0 obj
<< /Title (Metadata Title) /Author (Metadata Author) /Publisher (Baegun Press) /Subject (Metadata description) /Keywords (conversion, epub) /Lang (fr) >>
endobj
"#;
    let cfg = fixture_config();
    let pdf_metadata = extract_pdf_metadata(pdf);
    assert!(!missing_metadata(&cfg, &pdf_metadata));
    let metadata = resolve_book_metadata(&cfg, pdf_metadata, None);
    let book = normalize_to_rendered_book(&cover_payload(), &cfg, &metadata, &cfg.input_pdf, "h")
        .expect("payload has content");
    let opf = build_content_opf(&book);
    assert!(opf.contains("<dc:title>Metadata Title</dc:title>"));
    assert!(opf.contains("<dc:creator>Metadata Author</dc:creator>"));
    assert!(opf.contains("<dc:language>fr</dc:language>"));
    assert!(opf.contains("<dc:publisher>Baegun Press</dc:publisher>"));
    assert!(opf.contains("<dc:description>Metadata description</dc:description>"));
    assert!(opf.contains("<dc:subject>conversion</dc:subject>"));
    assert!(opf.contains("<dc:subject>epub</dc:subject>"));
}

/// Drives a conversion run to its end, recording the work it asks for and the
/// progress it reports.
fn drive(format: SourceFormat, validate: bool, found_in_cache: bool) -> (Vec<Work>, Vec<(ConvertStage, usize, usize, Option<bool>)>) {
    let (mut run, first) = ConversionRun::start(format, validate);
    let mut work = Vec::new();
    let mut reports = Vec::new();
    let mut record = |run: &ConversionRun, milestones: Vec<Milestone>, reports: &mut Vec<_>| {
        for m in milestones {
            let p = progress_at(run.format, m, run.validate, run.cache_hit);
            reports.push((p.stage, p.step, p.total_steps, p.cache_hit));
        }
    };
    record(&run, first, &mut reports);
    while run.next != Work::Done {
        work.push(run.next);
        let milestones = run.advance(found_in_cache);
        record(&run, milestones, &mut reports);
        assert!(work.len() <= 8);
    }
    (work, reports)
}

#[test]
fn progress_callback_reports_expected_stage_sequence() {
    let (work, reports) = drive(SourceFormat::Pdf, false, true);
    assert_eq!(
        work,
        vec![Work::ReadSource, Work::CheckCache, Work::Render, Work::Package, Work::Publish]
    );
    let stages: Vec<ConvertStage> = reports.iter().map(|r| r.0).collect();
    assert_eq!(stages.first(), Some(&ConvertStage::ReadingInput));
    assert!(stages.contains(&ConvertStage::Ocr));
    assert!(stages.contains(&ConvertStage::Normalize));
    assert!(stages.contains(&ConvertStage::PackageEpub));
    assert!(!stages.contains(&ConvertStage::Validate));
    assert_eq!(stages.last(), Some(&ConvertStage::Complete));
    assert_eq!(reports[2], (ConvertStage::Ocr, 2, 5, Some(true)));
    assert_eq!(reports[3], (ConvertStage::Normalize, 3, 5, Some(true)));
}

#[test]
fn cache_miss_fetches_ocr_and_validation_runs_before_publishing() {
    let (work, reports) = drive(SourceFormat::Pdf, true, false);
    assert_eq!(
        work,
        vec![
            Work::ReadSource,
            Work::CheckCache,
            Work::FetchOcr,
            Work::Render,
            Work::Package,
            Work::Validate,
            Work::Publish
        ]
    );
    let steps: Vec<usize> = reports.iter().map(|r| r.1).collect();
    assert_eq!(steps, vec![1, 2, 2, 3, 4, 5, 6]);
    assert_eq!(reports[2], (ConvertStage::Ocr, 2, 6, Some(false)));
    assert_eq!(reports[5].0, ConvertStage::Validate);
}

#[test]
fn archive_runs_skip_the_ocr_steps() {
    let (work, reports) = drive(SourceFormat::Cbz, true, true);
    assert_eq!(work, vec![Work::Render, Work::Package, Work::Validate, Work::Publish]);
    let stages: Vec<ConvertStage> = reports.iter().map(|r| r.0).collect();
    assert_eq!(
        stages,
        vec![
            ConvertStage::ReadingInput,
            ConvertStage::Normalize,
            ConvertStage::PackageEpub,
            ConvertStage::Validate,
            ConvertStage::Complete
        ]
    );
    assert!(reports.iter().all(|r| r.3 == Some(false) && r.2 == 5));
}

#[test]
fn source_check_takes_the_format_from_the_extension_and_the_bytes() {
    assert_eq!(check_source_signature("a.PDF", b"%PDF-1.4").ok(), Some(SourceFormat::Pdf));
    assert_eq!(check_source_signature("a.cbz", b"PK\x03\x04").ok(), Some(SourceFormat::Cbz));
    assert_eq!(
        check_source_signature("a.pdf", b"PK\x03\x04").unwrap_err().message,
        "Input 'a.pdf' does not have a valid PDF signature."
    );
    assert_eq!(
        check_source_signature("a.doc", b"%PDF").unwrap_err().message,
        "Unsupported input extension '.doc'; expected .pdf or .cbz."
    );
}

#[test]
fn images_whose_ids_clean_to_one_name_get_names_of_their_own() {
    let cfg = fixture_config();
    let image = |id: &str| OcrImage { id: id.to_string(), image_base64: Some(PIXEL_PNG.to_string()) };
    let payload = MistralOcrResponse {
        pages: vec![
            page(0, "# One\n\nFirst page.", vec![image("img a.png"), image("img?a.png")]),
            page(1, "# Two\n\nSecond page.", vec![image("img*a.png")]),
        ],
        model: None,
    };
    let book = normalize_to_rendered_book(&payload, &cfg, &BookMetadata::empty(), "b.pdf", "h")
        .expect("payload has content");
    let names: Vec<&str> = book.images.iter().map(|a| a.file_name.as_str()).collect();
    assert_eq!(names, vec!["img-a.png", "img-a-p0000-01.png", "img-a-p0001-00.png"]);
}
