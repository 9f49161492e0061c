//! The data that flows through a conversion: configuration, OCR payloads,
//! resolved metadata, the rendered book and progress reports.
use vstd::prelude::*;
use crate::text::{
    ascii_lower, ascii_lower_exec, chars_eq_str, chars_of, opt_view, string_of, strings_view, trim,
    trim_exec,
};

verus! {

/// How extracted tables are written into the book.
#[derive(Debug, Clone, Copy, PartialEq, Eq, Structural)]
pub enum TableFormat {
    Html,
    Markdown,
}

impl Default for TableFormat {
    fn default() -> (r: Self)
        ensures
            r == TableFormat::Html,
    {
        TableFormat::Html
    }
}

pub open spec fn table_format_name(f: TableFormat) -> Seq<char> {
    match f {
        TableFormat::Html => "html"@,
        TableFormat::Markdown => "markdown"@,
    }
}

/// The text that `TableFormat::parse` matches: the trimmed, ASCII-lowercased input.
pub open spec fn option_key(value: Seq<char>) -> Seq<char> {
    ascii_lower(trim(value))
}

impl TableFormat {
    pub fn as_str(self) -> (s: &'static str)
        ensures
            s@ == table_format_name(self),
    {
        match self {
            TableFormat::Html => "html",
            TableFormat::Markdown => "markdown",
        }
    }

    /// Parses `html` or `markdown`, ignoring surrounding white space and ASCII case.
    pub fn parse(value: &str) -> (r: Result<TableFormat, String>)
        ensures
            option_key(value@) == "html"@ ==> r == Ok::<TableFormat, String>(TableFormat::Html),
            option_key(value@) == "markdown"@ ==> r == Ok::<TableFormat, String>(
                TableFormat::Markdown,
            ),
            option_key(value@) != "html"@ && option_key(value@) != "markdown"@ ==> r.is_err(),
            r matches Err(m) ==> m@ == "Unsupported table format '"@ + option_key(value@)
                + "'. Expected one of: html, markdown"@,
    {
        proof {
            reveal_strlit("html");
            reveal_strlit("markdown");
            assert("html"@.len() != "markdown"@.len());
        }
        let v = chars_of(value);
        let t = trim_exec(&v);
        let key = ascii_lower_exec(&t);
        if chars_eq_str(&key, "html") {
            Ok(TableFormat::Html)
        } else if chars_eq_str(&key, "markdown") {
            Ok(TableFormat::Markdown)
        } else {
            let k = string_of(&key);
            let mut m = String::new();
            m.append("Unsupported table format '");
            m.append(k.as_str());
            m.append("'. Expected one of: html, markdown");
            Err(m)
        }
    }
}

/// Which OCR backend produces the document payload.
#[derive(Debug, Clone, Copy, PartialEq, Eq, Structural)]
pub enum OcrBackend {
    /// The hosted Mistral OCR API.
    Mistral,
}

impl Default for OcrBackend {
    fn default() -> (r: Self)
        ensures
            r == OcrBackend::Mistral,
    {
        OcrBackend::Mistral
    }
}

impl OcrBackend {
    pub fn as_str(self) -> (s: &'static str)
        ensures
            s@ == "mistral"@,
    {
        match self {
            OcrBackend::Mistral => "mistral",
        }
    }

    /// Parses `mistral`, ignoring surrounding white space and ASCII case.
    pub fn parse(value: &str) -> (r: Result<OcrBackend, String>)
        ensures
            option_key(value@) == "mistral"@ <==> r == Ok::<OcrBackend, String>(
                OcrBackend::Mistral,
            ),
            r matches Err(m) ==> m@ == "Unsupported OCR provider '"@ + option_key(value@)
                + "'. Expected one of: mistral"@,
    {
        let v = chars_of(value);
        let t = trim_exec(&v);
        let key = ascii_lower_exec(&t);
        if chars_eq_str(&key, "mistral") {
            Ok(OcrBackend::Mistral)
        } else {
            let k = string_of(&key);
            let mut m = String::new();
            m.append("Unsupported OCR provider '");
            m.append(k.as_str());
            m.append("'. Expected one of: mistral");
            Err(m)
        }
    }
}

/// The input kind of a conversion.
#[derive(Debug, Clone, Copy, PartialEq, Eq, Structural)]
pub enum SourceFormat {
    Pdf,
    Cbz,
}

/// Reading direction of a fixed-layout book.
#[derive(Debug, Clone, Copy, PartialEq, Eq, Structural)]
pub enum PageProgressionDirection {
    LeftToRight,
    RightToLeft,
}

/// Settings of one conversion. Paths are held as text.
#[derive(Debug, Clone)]
pub struct ConvertConfig {
    pub input_pdf: String,
    pub output_epub: String,
    pub api_key: Option<String>,
    pub provider: OcrBackend,
    pub model: String,
    pub title: Option<String>,
    pub author: Option<String>,
    pub language: String,
    pub publisher: Option<String>,
    pub table_format: TableFormat,
    pub extract_header: bool,
    pub extract_footer: bool,
    pub include_images: bool,
    pub comic_mode: bool,
    pub cache_dir: String,
    pub no_cache: bool,
    pub validate: bool,
    pub epubcheck_bin: String,
    pub keep_remote_file: bool,
    pub fail_on_warn: bool,
    pub debug_dir: Option<String>,
    pub quiet: bool,
    pub verbose: bool,
}

/// Book metadata from explicit settings, the PDF itself, ComicInfo.xml or generation.
#[derive(Debug, Clone)]
pub struct BookMetadata {
    pub title: Option<String>,
    pub author: Option<String>,
    pub language: Option<String>,
    pub publisher: Option<String>,
    pub description: Option<String>,
    pub subjects: Vec<String>,
}

/// What a `BookMetadata` says, as character sequences.
#[verifier::ext_equal]
pub struct MetadataView {
    pub title: Option<Seq<char>>,
    pub author: Option<Seq<char>>,
    pub language: Option<Seq<char>>,
    pub publisher: Option<Seq<char>>,
    pub description: Option<Seq<char>>,
    pub subjects: Seq<Seq<char>>,
}

impl View for BookMetadata {
    type V = MetadataView;

    open spec fn view(&self) -> MetadataView {
        MetadataView {
            title: opt_view(self.title),
            author: opt_view(self.author),
            language: opt_view(self.language),
            publisher: opt_view(self.publisher),
            description: opt_view(self.description),
            subjects: strings_view(self.subjects@),
        }
    }
}

impl BookMetadata {
    /// The view of metadata that says nothing.
    pub open spec fn empty_view() -> MetadataView {
        MetadataView {
            title: None,
            author: None,
            language: None,
            publisher: None,
            description: None,
            subjects: seq![],
        }
    }

    pub fn empty() -> (m: Self)
        ensures
            m.title.is_none(),
            m.author.is_none(),
            m.language.is_none(),
            m.publisher.is_none(),
            m.description.is_none(),
            m.subjects@.len() == 0,
            m@ == Self::empty_view(),
    {
        BookMetadata {
            title: None,
            author: None,
            language: None,
            publisher: None,
            description: None,
            subjects: Vec::new(),
        }
    }
}

/// An image that OCR extracted from a page.
#[derive(Debug, Clone)]
pub struct OcrImage {
    pub id: String,
    pub image_base64: Option<String>,
}

/// A table that OCR extracted from a page. `extra` holds the other string-valued
/// fields of the payload (such as `table_id`, `file_name`, `path`), by name.
#[derive(Debug, Clone)]
pub struct OcrTable {
    pub id: Option<String>,
    pub html: Option<String>,
    pub markdown: Option<String>,
    pub content: Option<String>,
    pub extra: Vec<(String, String)>,
}

/// One OCR page.
#[derive(Debug, Clone)]
pub struct OcrPage {
    pub index: usize,
    pub markdown: String,
    pub images: Vec<OcrImage>,
    pub tables: Vec<OcrTable>,
    pub header: Option<String>,
    pub footer: Option<String>,
}

/// The canonical OCR payload.
#[derive(Debug, Clone)]
pub struct MistralOcrResponse {
    pub pages: Vec<OcrPage>,
    pub model: Option<String>,
}

/// The book as it will be packaged.
#[derive(Debug, Clone)]
pub struct RenderedBook {
    pub title: String,
    pub author: Option<String>,
    pub language: String,
    pub publisher: Option<String>,
    pub description: Option<String>,
    pub subjects: Vec<String>,
    pub source_hash: String,
    pub chapters: Vec<RenderedChapter>,
    pub images: Vec<ImageAsset>,
    pub cover_image: Option<String>,
    pub fixed_layout: bool,
    pub page_progression_direction: PageProgressionDirection,
}

#[derive(Debug, Clone)]
pub struct RenderedChapter {
    pub id: String,
    pub title: String,
    pub file_name: String,
    pub markdown: String,
    pub xhtml: String,
}

#[derive(Debug, Clone)]
pub struct ImageAsset {
    pub file_name: String,
    pub media_type: String,
    pub bytes: Vec<u8>,
}

/// What epubcheck reported.
#[derive(Debug, Clone)]
pub struct ValidationResult {
    pub warnings: usize,
    pub errors: usize,
    pub passed: bool,
    pub raw_output: String,
}

/// What a conversion produced.
#[derive(Debug, Clone)]
pub struct ConvertSummary {
    pub output_path: String,
    pub pages_processed: usize,
    pub chapters: usize,
    pub images: usize,
    pub cache_hit: bool,
    pub validation: Option<ValidationResult>,
}

/// The stages a conversion reports progress for.
#[derive(Debug, Clone, Copy, PartialEq, Eq, Structural)]
pub enum ConvertStage {
    ReadingInput,
    Ocr,
    Normalize,
    PackageEpub,
    Validate,
    Complete,
}

/// One progress report.
#[derive(Debug, Clone)]
pub struct ConvertProgress {
    pub stage: ConvertStage,
    pub step: usize,
    pub total_steps: usize,
    pub message: String,
    pub cache_hit: Option<bool>,
}

} // verus!
