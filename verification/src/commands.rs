//! The desktop front end's decisions: the settings of a conversion request,
//! the progress events it sends, the reply, and which epubcheck to run.
use vstd::prelude::*;
use crate::models::{
    option_key, ConvertConfig, ConvertProgress, ConvertStage, ConvertSummary, OcrBackend,
    TableFormat,
};
use crate::paths::{component_count, is_absolute_path, path_component_count, path_is_absolute, with_extension, path_with_extension};
use crate::text::{chars_of, clone_opt, concat_str, is_blank, is_blank_exec, opt_view, string_of, trim, trim_exec};

verus! {

/// A conversion request from the desktop front end; what it leaves out takes
/// the defaults.
#[derive(Debug, Clone)]
pub struct ConvertRequest {
    pub input_path: String,
    pub output_path: Option<String>,
    pub api_key: Option<String>,
    pub model: Option<String>,
    pub title: Option<String>,
    pub author: Option<String>,
    pub language: Option<String>,
    pub publisher: Option<String>,
    pub table_format: Option<String>,
    pub extract_header: Option<bool>,
    pub extract_footer: Option<bool>,
    pub include_images: Option<bool>,
    pub comic_mode: Option<bool>,
    pub cache_dir: Option<String>,
    pub no_cache: Option<bool>,
    pub validate: Option<bool>,
    pub epubcheck_bin: Option<String>,
    pub keep_remote_file: Option<bool>,
    pub fail_on_warn: Option<bool>,
    pub debug_dir: Option<String>,
    pub quiet: Option<bool>,
    pub verbose: Option<bool>,
}

/// The reply to a conversion request.
#[derive(Debug, Clone)]
pub struct ConvertResponse {
    pub output_path: String,
    pub pages_processed: usize,
    pub chapters: usize,
    pub images: usize,
    pub cache_hit: bool,
    pub validation_warnings: usize,
    pub validation_errors: usize,
}

/// A progress report sent to the desktop front end.
#[derive(Debug, Clone)]
pub struct ConvertProgressEvent {
    pub input_path: String,
    pub output_path: String,
    pub stage: ConvertStage,
    pub step: usize,
    pub total_steps: usize,
    pub message: String,
    pub cache_hit: Option<bool>,
}

pub open spec fn or_bool(o: Option<bool>, d: bool) -> bool {
    match o {
        Some(b) => b,
        None => d,
    }
}

fn or_bool_exec(o: Option<bool>, d: bool) -> (r: bool)
    ensures
        r == or_bool(o, d),
{
    match o {
        Some(b) => b,
        None => d,
    }
}

/// The table format a request asks for, `html` when it names none.
pub open spec fn request_format_key(request: ConvertRequest) -> Seq<char> {
    match request.table_format {
        Some(f) => option_key(f@),
        None => "html"@,
    }
}

pub fn request_table_format(request: &ConvertRequest) -> (r: Result<TableFormat, String>)
    ensures
        request_format_key(*request) == "html"@ ==> r == Ok::<TableFormat, String>(TableFormat::Html),
        request_format_key(*request) == "markdown"@ ==> r == Ok::<TableFormat, String>(TableFormat::Markdown),
        request_format_key(*request) != "html"@ && request_format_key(*request) != "markdown"@ ==> (r matches Err(m)
            && m@ == "Invalid table format: "@ + ("Unsupported table format '"@ + request_format_key(*request)
            + "'. Expected one of: html, markdown"@)),
{
    let value = match &request.table_format {
        Some(f) => f.as_str(),
        None => "html",
    };
    proof {
        reveal_strlit("html");
        if request.table_format is None {
            assert(option_key("html"@) == "html"@) by {
                reveal_strlit("html");
                assert(trim("html"@) =~= "html"@) by {
                    crate::text::lemma_trim_class_shape("html"@, crate::text::CharClass::Space);
                }
            }
        }
    }
    match TableFormat::parse(value) {
        Ok(f) => Ok(f),
        Err(e) => Err(concat_str("Invalid table format: ", e.as_str())),
    }
}

/// The cache directory that a request names, trimmed, when it names one.
pub open spec fn request_cache_dir_spec(cache_dir: Option<Seq<char>>) -> Option<Seq<char>> {
    match cache_dir {
        Some(d) => if trim(d).len() > 0 {
            Some(trim(d))
        } else {
            None
        },
        None => None,
    }
}

pub fn request_cache_dir(request: &ConvertRequest) -> (r: Option<String>)
    ensures
        opt_view(r) == request_cache_dir_spec(opt_view(request.cache_dir)),
{
    match &request.cache_dir {
        Some(d) => {
            let t = trim_exec(&chars_of(d.as_str()));
            if t.len() > 0 {
                Some(string_of(&t))
            } else {
                None
            }
        },
        None => None,
    }
}

/// The epubcheck command: the requested one trimmed, else a non-blank one from
/// the environment, else `epubcheck`.
pub open spec fn epubcheck_command_spec(requested: Option<Seq<char>>, from_env: Option<Seq<char>>) -> Seq<char> {
    match requested {
        Some(r) if trim(r).len() > 0 => trim(r),
        _ => match from_env {
            Some(e) if !is_blank(e) => e,
            _ => "epubcheck"@,
        },
    }
}

pub fn epubcheck_command(requested: Option<String>, from_env: Option<String>) -> (r: String)
    ensures
        r@ == epubcheck_command_spec(opt_view(requested), opt_view(from_env)),
{
    if let Some(req) = &requested {
        let t = trim_exec(&chars_of(req.as_str()));
        if t.len() > 0 {
            return string_of(&t);
        }
    }
    if let Some(e) = from_env {
        if !is_blank_exec(&chars_of(e.as_str())) {
            return e;
        }
    }
    string_of(&chars_of("epubcheck"))
}

/// A command given as a path (absolute, or with more than one component) is
/// run as is; a bare name is looked up.
pub fn path_like_command(command: &str) -> (r: bool)
    ensures
        r == (is_absolute_path(command@) || component_count(command@) > 1),
{
    path_is_absolute(command) || path_component_count(command) > 1
}

/// The settings of a requested conversion: given values, else the defaults;
/// images are always extracted in comic mode.
pub fn config_from_request(
    request: ConvertRequest,
    api_key: Option<String>,
    table_format: TableFormat,
    cache_dir: String,
    epubcheck_bin: String,
) -> (c: ConvertConfig)
    ensures
        c.input_pdf@ == request.input_path@,
        c.output_epub@ == (match request.output_path {
            Some(o) => o@,
            None => with_extension(request.input_path@, "epub"@),
        }),
        opt_view(c.api_key) == opt_view(api_key),
        c.provider == OcrBackend::Mistral,
        c.model@ == (match request.model {
            Some(m) => m@,
            None => "mistral-ocr-latest"@,
        }),
        opt_view(c.title) == opt_view(request.title),
        opt_view(c.author) == opt_view(request.author),
        c.language@ == (match request.language {
            Some(l) => l@,
            None => "en"@,
        }),
        opt_view(c.publisher) == opt_view(request.publisher),
        c.table_format == table_format,
        c.extract_header == or_bool(request.extract_header, true),
        c.extract_footer == or_bool(request.extract_footer, true),
        c.include_images == (or_bool(request.include_images, true) || or_bool(request.comic_mode, false)),
        c.comic_mode == or_bool(request.comic_mode, false),
        c.cache_dir@ == cache_dir@,
        c.no_cache == or_bool(request.no_cache, false),
        c.validate == or_bool(request.validate, false),
        c.epubcheck_bin@ == epubcheck_bin@,
        c.keep_remote_file == or_bool(request.keep_remote_file, false),
        c.fail_on_warn == or_bool(request.fail_on_warn, false),
        opt_view(c.debug_dir) == opt_view(request.debug_dir),
        c.quiet == or_bool(request.quiet, true),
        c.verbose == or_bool(request.verbose, false),
{
    let output_epub = match &request.output_path {
        Some(o) => o.clone(),
        None => {
            proof {
                reveal_strlit("epub");
            }
            path_with_extension(request.input_path.as_str(), "epub")
        },
    };
    let comic_mode = or_bool_exec(request.comic_mode, false);
    let model = match &request.model {
        Some(m) => m.clone(),
        None => string_of(&chars_of("mistral-ocr-latest")),
    };
    let language = match &request.language {
        Some(l) => l.clone(),
        None => string_of(&chars_of("en")),
    };
    ConvertConfig {
        input_pdf: request.input_path.clone(),
        output_epub,
        api_key,
        provider: OcrBackend::Mistral,
        model,
        title: clone_opt(&request.title),
        author: clone_opt(&request.author),
        language,
        publisher: clone_opt(&request.publisher),
        table_format,
        extract_header: or_bool_exec(request.extract_header, true),
        extract_footer: or_bool_exec(request.extract_footer, true),
        include_images: or_bool_exec(request.include_images, true) || comic_mode,
        comic_mode,
        cache_dir,
        no_cache: or_bool_exec(request.no_cache, false),
        validate: or_bool_exec(request.validate, false),
        epubcheck_bin,
        keep_remote_file: or_bool_exec(request.keep_remote_file, false),
        fail_on_warn: or_bool_exec(request.fail_on_warn, false),
        debug_dir: clone_opt(&request.debug_dir),
        quiet: or_bool_exec(request.quiet, true),
        verbose: or_bool_exec(request.verbose, false),
    }
}

/// The progress event for one progress report of a requested conversion.
pub fn progress_event(input_path: &str, output_path: &str, progress: &ConvertProgress) -> (e: ConvertProgressEvent)
    ensures
        e.input_path@ == input_path@,
        e.output_path@ == output_path@,
        e.stage == progress.stage,
        e.step == progress.step,
        e.total_steps == progress.total_steps,
        e.message@ == progress.message@,
        e.cache_hit == progress.cache_hit,
{
    ConvertProgressEvent {
        input_path: string_of(&chars_of(input_path)),
        output_path: string_of(&chars_of(output_path)),
        stage: progress.stage,
        step: progress.step,
        total_steps: progress.total_steps,
        message: progress.message.clone(),
        cache_hit: progress.cache_hit,
    }
}

/// The reply to a finished conversion; no validation counts as zero warnings
/// and errors.
pub fn response_from_summary(summary: &ConvertSummary) -> (r: ConvertResponse)
    ensures
        r.output_path@ == summary.output_path@,
        r.pages_processed == summary.pages_processed,
        r.chapters == summary.chapters,
        r.images == summary.images,
        r.cache_hit == summary.cache_hit,
        r.validation_warnings == (match summary.validation {
            Some(v) => v.warnings,
            None => 0usize,
        }),
        r.validation_errors == (match summary.validation {
            Some(v) => v.errors,
            None => 0usize,
        }),
{
    let (validation_warnings, validation_errors) = match &summary.validation {
        Some(v) => (v.warnings, v.errors),
        None => (0, 0),
    };
    ConvertResponse {
        output_path: summary.output_path.clone(),
        pages_processed: summary.pages_processed,
        chapters: summary.chapters,
        images: summary.images,
        cache_hit: summary.cache_hit,
        validation_warnings,
        validation_errors,
    }
}

} // verus!
