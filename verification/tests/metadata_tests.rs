use baegun_core::metadata::{
    clean_metadata_value, decode_pdf_literal_string, decode_pdf_string, extract_pdf_metadata,
    merge_metadata, push_subjects, split_keywords, xml_unescape,
};
use baegun_core::models::{BookMetadata, ConvertConfig, OcrBackend, TableFormat};

#[test]
fn extracts_pdf_info_metadata() {
    let pdf = br#"%PDF-1.4
1 0 obj
<< /Title (Example Book) /Author (Ada Lovelace) /Subject (A compact description) /Keywords (math, computing; history) /Lang (en-US) >>
endobj
"#;

    let metadata = extract_pdf_metadata(pdf);
    assert_eq!(metadata.title.as_deref(), Some("Example Book"));
    assert_eq!(metadata.author.as_deref(), Some("Ada Lovelace"));
    assert_eq!(
        metadata.description.as_deref(),
        Some("A compact description")
    );
    assert_eq!(metadata.language.as_deref(), Some("en-US"));
    assert_eq!(metadata.subjects, vec!["math", "computing", "history"]);
}

#[test]
fn decodes_utf16_pdf_hex_string() {
    let decoded = decode_pdf_string("<FEFF00420061006500670075006E>");
    assert_eq!(decoded.as_deref(), Some("Baegun"));
}

fn config() -> ConvertConfig {
    ConvertConfig {
        input_pdf: "in.pdf".to_string(),
        output_epub: "out.epub".to_string(),
        api_key: None,
        provider: OcrBackend::Mistral,
        model: "mistral-ocr-latest".to_string(),
        title: None,
        author: None,
        language: "en".to_string(),
        publisher: None,
        table_format: TableFormat::Html,
        extract_header: true,
        extract_footer: true,
        include_images: true,
        comic_mode: false,
        cache_dir: ".baegun-cache".to_string(),
        no_cache: false,
        validate: false,
        epubcheck_bin: "epubcheck".to_string(),
        keep_remote_file: false,
        fail_on_warn: false,
        debug_dir: None,
        quiet: true,
        verbose: false,
    }
}

fn metadata(title: Option<&str>, subjects: &[&str]) -> BookMetadata {
    let mut m = BookMetadata::empty();
    m.title = title.map(str::to_string);
    m.subjects = subjects.iter().map(|s| s.to_string()).collect();
    m
}

#[test]
fn settings_come_before_pdf_before_generated_metadata() {
    let mut cfg = config();
    let pdf = metadata(Some("PDF Title"), &[]);
    let generated = metadata(Some("Generated Title"), &[]);
    assert_eq!(
        merge_metadata(&cfg, pdf.clone(), generated.clone()).title.as_deref(),
        Some("PDF Title")
    );
    cfg.title = Some("  Given   Title ".to_string());
    assert_eq!(
        merge_metadata(&cfg, pdf.clone(), generated.clone()).title.as_deref(),
        Some("Given Title")
    );
    cfg.title = Some("unknown".to_string());
    assert_eq!(
        merge_metadata(&cfg, metadata(None, &[]), generated).title.as_deref(),
        Some("Generated Title")
    );
}

#[test]
fn configured_non_english_language_wins() {
    let mut cfg = config();
    cfg.language = "fr".to_string();
    let mut pdf = BookMetadata::empty();
    pdf.language = Some("de".to_string());
    assert_eq!(
        merge_metadata(&cfg, pdf.clone(), BookMetadata::empty()).language.as_deref(),
        Some("fr")
    );
    cfg.language = "en".to_string();
    assert_eq!(
        merge_metadata(&cfg, pdf, BookMetadata::empty()).language.as_deref(),
        Some("de")
    );
}

#[test]
fn merged_subjects_skip_case_insensitive_repeats() {
    let merged = merge_metadata(
        &config(),
        metadata(None, &["History", "math"]),
        metadata(None, &["history", "Poetry", "MATH", " "]),
    );
    assert_eq!(merged.subjects, vec!["History", "math", "Poetry"]);
    let mut subjects = vec!["A".to_string()];
    push_subjects(&mut subjects, vec!["a".to_string(), "b".to_string()]);
    assert_eq!(subjects, vec!["A", "b"]);
}

#[test]
fn metadata_values_are_cleaned() {
    assert_eq!(clean_metadata_value("  two \n words "), Some("two words".to_string()));
    assert_eq!(clean_metadata_value("UNKNOWN"), None);
    assert_eq!(clean_metadata_value(" \t "), None);
    assert_eq!(split_keywords("a, b;;c\n"), vec!["a", "b", "c"]);
}

#[test]
fn pdf_literal_strings_decode_escapes() {
    assert_eq!(decode_pdf_literal_string("a\\(b\\)\\n\\101\\\r\nc"), "a(b)\nAc");
    assert_eq!(decode_pdf_literal_string("\\777x"), "x");
    assert_eq!(decode_pdf_string("(Plain)").as_deref(), Some("Plain"));
    assert_eq!(decode_pdf_string("<48 69 7>").as_deref(), Some("Hip"));
    assert_eq!(decode_pdf_string("<4G>"), None);
    assert_eq!(decode_pdf_string("plain"), None);
}

#[test]
fn xml_entities_are_unescaped_ampersand_last() {
    assert_eq!(xml_unescape("&amp;lt; &quot;x&quot;"), "&lt; \"x\"");
}

#[test]
fn xmp_metadata_is_read_when_info_is_missing() {
    let pdf = br#"<x:xmpmeta><dc:title><rdf:Alt><rdf:li xml:lang="x-default">XMP Title</rdf:li></rdf:Alt></dc:title><dc:subject><rdf:Bag><rdf:li>one</rdf:li><rdf:li>Two &amp; Three</rdf:li></rdf:Bag></dc:subject></x:xmpmeta>"#;
    let metadata = extract_pdf_metadata(pdf);
    assert_eq!(metadata.title.as_deref(), Some("XMP Title"));
    assert_eq!(metadata.subjects, vec!["one", "Two & Three"]);
}
