//! The command-line front end's decisions: which files are books, where each
//! book of a batch goes, the settings of a conversion, and what is reported.
use vstd::prelude::*;
use crate::errors::{BaegunError, ErrorKind};
use crate::models::{ConvertConfig, ConvertSummary, OcrBackend, SourceFormat, TableFormat};
use crate::paths::{
    extension_of, file_stem_of, joined, parent_of, path_extension, path_file_stem, path_join,
    path_parent, path_strip_prefix, path_with_extension, stripped_prefix, to_lowercase,
    unicode_lowercase, with_extension,
};
use crate::text::{
    chars_of, clone_opt, concat_str, decimal, decimal_exec, eq_ignore_case, eq_ignore_case_str,
    extend_chars, extend_str, is_blank, is_blank_exec, opt_view, string_of, strings_view,
};

verus! {

// ---------------------------------------------------------------------------
// Books and their outputs.
// ---------------------------------------------------------------------------

/// A path whose extension is `pdf` or `cbz` in any ASCII case.
pub open spec fn is_book_spec(path: Seq<char>) -> bool {
    match extension_of(path) {
        Some(e) => eq_ignore_case(e, "pdf"@) || eq_ignore_case(e, "cbz"@),
        None => false,
    }
}

pub fn is_book_file(path: &str) -> (r: bool)
    ensures
        r == is_book_spec(path@),
{
    match path_extension(path) {
        Some(e) => {
            let v = chars_of(e.as_str());
            eq_ignore_case_str(&v, "pdf") || eq_ignore_case_str(&v, "cbz")
        },
        None => false,
    }
}

/// The output of a book of a batch: its path relative to the input directory,
/// under the output directory, with the extension `epub`.
pub open spec fn batch_output_spec(input: Seq<char>, input_dir: Seq<char>, output_dir: Seq<char>) -> Seq<char> {
    let relative = match stripped_prefix(input, input_dir) {
        Some(r) => r,
        None => input,
    };
    with_extension(joined(output_dir, relative), "epub"@)
}

pub fn derive_batch_output_path(input_pdf: &str, input_dir: &str, output_dir: &str) -> (r: String)
    ensures
        r@ == batch_output_spec(input_pdf@, input_dir@, output_dir@),
{
    let relative = match path_strip_prefix(input_pdf, input_dir) {
        Some(r) => r,
        None => string_of(&chars_of(input_pdf)),
    };
    let joined_path = path_join(output_dir, relative.as_str());
    proof {
        reveal_strlit("epub");
    }
    path_with_extension(joined_path.as_str(), "epub")
}

/// The output of a single conversion when none is given: the input with the
/// extension `epub`.
pub fn default_output_path(input: &str) -> (r: String)
    ensures
        r@ == with_extension(input@, "epub"@),
{
    proof {
        reveal_strlit("epub");
    }
    path_with_extension(input, "epub")
}

/// Output paths that differ only in case collide on some file systems.
pub fn case_insensitive_path_key(path: &str) -> (r: String)
    ensures
        r@ == unicode_lowercase(path@),
{
    to_lowercase(path)
}

/// The `n`-th alternative for a taken output: `stem-n.epub` beside it.
pub open spec fn suffixed_output(candidate: Seq<char>, n: nat) -> Seq<char> {
    let parent = match parent_of(candidate) {
        Some(p) => p,
        None => seq![],
    };
    let stem = match file_stem_of(candidate) {
        Some(s) => s,
        None => "output"@,
    };
    joined(parent, stem + "-"@ + decimal(n) + ".epub"@)
}

fn suffixed_output_exec(parent: &str, stem: &str, n: usize) -> (r: String)
    ensures
        r@ == joined(parent@, stem@ + "-"@ + decimal(n as nat) + ".epub"@),
{
    let mut name: Vec<char> = chars_of(stem);
    extend_str(&mut name, "-");
    extend_chars(&mut name, &decimal_exec(n as u64));
    extend_str(&mut name, ".epub");
    path_join(parent, string_of(&name).as_str())
}

fn key_taken(used: &Vec<String>, key: &String) -> (r: bool)
    ensures
        r == strings_view(used@).contains(key@),
{
    let mut i: usize = 0;
    while i < used.len()
        invariant
            i <= used.len(),
            forall|j: int| 0 <= j < i ==> strings_view(used@)[j] != key@,
        decreases used.len() - i,
    {
        if crate::text::chars_eq_str(&chars_of(used[i].as_str()), key.as_str()) {
            assert(strings_view(used@)[i as int] == key@);
            return true;
        }
        i += 1;
    }
    false
}

/// Picks an output path that no earlier book of the batch took, ignoring case:
/// the candidate itself, else `stem-2.epub`, `stem-3.epub`, ... beside it.
pub fn unique_batch_output_path(candidate: String, used: &mut Vec<String>) -> (r: String)
    ensures
        !strings_view(old(used)@).contains(unicode_lowercase(candidate@)) ==> r@ == candidate@,
        strings_view(old(used)@).contains(unicode_lowercase(candidate@)) ==> exists|n: nat| #![trigger suffixed_output(candidate@, n)] {
            &&& 2 <= n <= usize::MAX
            &&& r@ == suffixed_output(candidate@, n)
            &&& forall|m: nat| 2 <= m < n ==> strings_view(old(used)@).contains(unicode_lowercase(#[trigger] suffixed_output(candidate@, m)))
            &&& n < usize::MAX ==> !strings_view(old(used)@).contains(unicode_lowercase(r@))
        },
        strings_view(final(used)@) == strings_view(old(used)@).push(unicode_lowercase(r@)),
{
    let key = case_insensitive_path_key(candidate.as_str());
    if !key_taken(used, &key) {
        let ghost before = used@;
        used.push(key);
        assert(strings_view(used@) =~= strings_view(before).push(unicode_lowercase(candidate@)));
        return candidate;
    }
    let parent = match path_parent(candidate.as_str()) {
        Some(p) => p,
        None => string_of(&Vec::new()),
    };
    let stem = match path_file_stem(candidate.as_str()) {
        Some(s) => s,
        None => string_of(&chars_of("output")),
    };
    assert(parent@ == (match parent_of(candidate@) {
        Some(p) => p,
        None => Seq::<char>::empty(),
    }));
    let ghost start = strings_view(used@);
    let mut counter: usize = 2;
    while counter < usize::MAX
        invariant
            2 <= counter <= usize::MAX,
            strings_view(used@) == start,
            start == strings_view(old(used)@),
            start.contains(unicode_lowercase(candidate@)),
            parent@ == (match parent_of(candidate@) {
                Some(p) => p,
                None => Seq::<char>::empty(),
            }),
            stem@ == (match file_stem_of(candidate@) {
                Some(s) => s,
                None => "output"@,
            }),
            forall|m: nat| 2 <= m < counter ==> start.contains(unicode_lowercase(#[trigger] suffixed_output(candidate@, m))),
        decreases usize::MAX - counter,
    {
        let suffixed = suffixed_output_exec(parent.as_str(), stem.as_str(), counter);
        assert(suffixed@ == suffixed_output(candidate@, counter as nat));
        let k = case_insensitive_path_key(suffixed.as_str());
        if !key_taken(used, &k) {
            let ghost before = used@;
            used.push(k);
            assert(strings_view(used@) =~= strings_view(before).push(unicode_lowercase(suffixed@)));
            return suffixed;
        }
        counter += 1;
    }
    let last = suffixed_output_exec(parent.as_str(), stem.as_str(), counter);
    assert(last@ == suffixed_output(candidate@, counter as nat));
    let k = case_insensitive_path_key(last.as_str());
    let ghost before = used@;
    used.push(k);
    assert(strings_view(used@) =~= strings_view(before).push(unicode_lowercase(last@)));
    last
}

// ---------------------------------------------------------------------------
// Settings.
// ---------------------------------------------------------------------------

/// The options shared by `convert` and `convert-batch`.
#[derive(Debug, Clone)]
pub struct CommonOptions {
    pub api_key: Option<String>,
    pub model: String,
    pub title: Option<String>,
    pub author: Option<String>,
    pub language: String,
    pub publisher: Option<String>,
    pub table_format: String,
    pub extract_header: bool,
    pub extract_footer: bool,
    pub include_images: bool,
    pub cache_dir: String,
    pub no_cache: bool,
    pub validate: bool,
    pub epubcheck_bin: String,
    pub debug_dir: Option<String>,
    pub keep_remote_file: bool,
    pub fail_on_warn: bool,
    pub quiet: bool,
    pub verbose: bool,
    pub comic: bool,
    pub delete_source: bool,
}

/// The API key: the one given, else the one from the environment, unless it is
/// blank.
pub open spec fn api_key_spec(given: Option<Seq<char>>, from_env: Option<Seq<char>>) -> Option<Seq<char>> {
    let k = match given {
        Some(g) => Some(g),
        None => from_env,
    };
    match k {
        Some(v) => if is_blank(v) {
            None
        } else {
            Some(v)
        },
        None => None,
    }
}

pub fn resolve_api_key(given: Option<String>, from_env: Option<String>) -> (r: Option<String>)
    ensures
        opt_view(r) == api_key_spec(opt_view(given), opt_view(from_env)),
{
    let k = match given {
        Some(g) => Some(g),
        None => from_env,
    };
    match k {
        Some(v) => if is_blank_exec(&chars_of(v.as_str())) {
            None
        } else {
            Some(v)
        },
        None => None,
    }
}

/// The settings of one conversion from the command-line options.
pub fn build_config(input_pdf: String, output_epub: String, options: &CommonOptions, api_key: Option<String>, table_format: TableFormat) -> (c: ConvertConfig)
    ensures
        c.input_pdf@ == input_pdf@,
        c.output_epub@ == output_epub@,
        opt_view(c.api_key) == opt_view(api_key),
        c.provider == OcrBackend::Mistral,
        c.model@ == options.model@,
        opt_view(c.title) == opt_view(options.title),
        opt_view(c.author) == opt_view(options.author),
        c.language@ == options.language@,
        opt_view(c.publisher) == opt_view(options.publisher),
        c.table_format == table_format,
        c.extract_header == options.extract_header,
        c.extract_footer == options.extract_footer,
        c.include_images == options.include_images,
        c.comic_mode == options.comic,
        c.cache_dir@ == options.cache_dir@,
        c.no_cache == options.no_cache,
        c.validate == options.validate,
        c.epubcheck_bin@ == options.epubcheck_bin@,
        c.keep_remote_file == options.keep_remote_file,
        c.fail_on_warn == options.fail_on_warn,
        opt_view(c.debug_dir) == opt_view(options.debug_dir),
        c.quiet == options.quiet,
        c.verbose == options.verbose,
{
    ConvertConfig {
        input_pdf,
        output_epub,
        api_key,
        provider: OcrBackend::Mistral,
        model: options.model.clone(),
        title: clone_opt(&options.title),
        author: clone_opt(&options.author),
        language: options.language.clone(),
        publisher: clone_opt(&options.publisher),
        table_format,
        extract_header: options.extract_header,
        extract_footer: options.extract_footer,
        include_images: options.include_images,
        comic_mode: options.comic,
        cache_dir: options.cache_dir.clone(),
        no_cache: options.no_cache,
        validate: options.validate,
        epubcheck_bin: options.epubcheck_bin.clone(),
        keep_remote_file: options.keep_remote_file,
        fail_on_warn: options.fail_on_warn,
        debug_dir: clone_opt(&options.debug_dir),
        quiet: options.quiet,
        verbose: options.verbose,
    }
}


// ---------------------------------------------------------------------------
// Batch outcome.
// ---------------------------------------------------------------------------

/// The error of a batch with failures: the kind of the first failure, and how
/// many books failed and succeeded.
pub open spec fn batch_failure_message(failures: nat, successes: nat) -> Seq<char> {
    "Batch conversion completed with "@ + decimal(failures) + " failure(s) and "@ + decimal(successes)
        + " success(es)."@
}

pub fn build_batch_failure_error(successes: usize, failures: &Vec<(String, BaegunError)>) -> (e: BaegunError)
    ensures
        e.kind == (if failures.len() > 0 { failures@[0].1.kind } else { ErrorKind::Internal }),
        e.message@ == batch_failure_message(failures.len() as nat, successes as nat),
{
    let kind = if failures.len() > 0 {
        failures[0].1.kind
    } else {
        ErrorKind::Internal
    };
    let mut m: Vec<char> = chars_of("Batch conversion completed with ");
    extend_chars(&mut m, &decimal_exec(failures.len() as u64));
    extend_str(&mut m, " failure(s) and ");
    extend_chars(&mut m, &decimal_exec(successes as u64));
    extend_str(&mut m, " success(es).");
    BaegunError::new(kind, string_of(&m))
}

/// What a batch has done so far.
pub struct BatchTally {
    pub successes: usize,
    pub failures: Vec<(String, BaegunError)>,
    pub total_pages: usize,
    pub total_chapters: usize,
    pub total_images: usize,
    pub cache_hits: usize,
    pub sources_deleted: usize,
}

impl BatchTally {
    pub fn new() -> (t: Self)
        ensures
            t.successes == 0 && t.failures.len() == 0 && t.total_pages == 0 && t.total_chapters == 0
                && t.total_images == 0 && t.cache_hits == 0 && t.sources_deleted == 0,
    {
        BatchTally {
            successes: 0,
            failures: Vec::new(),
            total_pages: 0,
            total_chapters: 0,
            total_images: 0,
            cache_hits: 0,
            sources_deleted: 0,
        }
    }

    /// Counts a converted book.
    pub fn record_success(&mut self, summary: &ConvertSummary)
        requires
            old(self).successes < usize::MAX,
            old(self).cache_hits < usize::MAX,
            old(self).total_pages + summary.pages_processed <= usize::MAX,
            old(self).total_chapters + summary.chapters <= usize::MAX,
            old(self).total_images + summary.images <= usize::MAX,
        ensures
            final(self).successes == old(self).successes + 1,
            final(self).total_pages == old(self).total_pages + summary.pages_processed,
            final(self).total_chapters == old(self).total_chapters + summary.chapters,
            final(self).total_images == old(self).total_images + summary.images,
            final(self).cache_hits == old(self).cache_hits + (if summary.cache_hit { 1int } else { 0int }),
            final(self).sources_deleted == old(self).sources_deleted,
            final(self).failures@ == old(self).failures@,
    {
        self.successes = self.successes + 1;
        self.total_pages = self.total_pages + summary.pages_processed;
        self.total_chapters = self.total_chapters + summary.chapters;
        self.total_images = self.total_images + summary.images;
        if summary.cache_hit {
            self.cache_hits = self.cache_hits + 1;
        }
    }

    /// Counts a source deleted after its conversion.
    pub fn record_source_deleted(&mut self)
        requires
            old(self).sources_deleted < usize::MAX,
        ensures
            final(self).sources_deleted == old(self).sources_deleted + 1,
            final(self).successes == old(self).successes,
            final(self).failures@ == old(self).failures@,
            final(self).total_pages == old(self).total_pages,
            final(self).total_chapters == old(self).total_chapters,
            final(self).total_images == old(self).total_images,
            final(self).cache_hits == old(self).cache_hits,
    {
        self.sources_deleted = self.sources_deleted + 1;
    }

    /// Keeps a failed book and its error.
    pub fn record_failure(&mut self, path: String, error: BaegunError)
        ensures
            final(self).failures@ == old(self).failures@.push((path, error)),
            final(self).successes == old(self).successes,
            final(self).sources_deleted == old(self).sources_deleted,
            final(self).total_pages == old(self).total_pages,
            final(self).total_chapters == old(self).total_chapters,
            final(self).total_images == old(self).total_images,
            final(self).cache_hits == old(self).cache_hits,
    {
        self.failures.push((path, error));
    }

    /// The batch's result: success when no book failed.
    pub fn outcome(&self) -> (r: Result<(), BaegunError>)
        ensures
            self.failures.len() == 0 ==> r is Ok,
            self.failures.len() > 0 ==> (r matches Err(e) && e.kind == self.failures@[0].1.kind
                && e.message@ == batch_failure_message(self.failures.len() as nat, self.successes as nat)),
    {
        if self.failures.len() == 0 {
            Ok(())
        } else {
            Err(build_batch_failure_error(self.successes, &self.failures))
        }
    }
}

/// The report printed after a batch: a blank line, the counts, the totals when
/// a book succeeded, the deletions when there were any, and the failures.
pub open spec fn tally_report(successes: nat, failures: Seq<(Seq<char>, Seq<char>)>, pages: nat, chapters: nat, images: nat, hits: nat, deleted: nat) -> Seq<Seq<char>> {
    seq![seq![], "Batch complete: "@ + decimal(successes) + " succeeded, "@ + decimal(failures.len()) + " failed."@]
        + (if successes > 0 {
        seq!["Totals: "@ + decimal(pages) + " pages, "@ + decimal(chapters) + " chapters, "@ + decimal(images)
            + " images, "@ + decimal(hits) + " PDF OCR cache hit(s)."@]
    } else {
        seq![]
    }) + (if deleted > 0 {
        seq!["Deleted "@ + decimal(deleted) + " source file(s)."@]
    } else {
        seq![]
    }) + (if failures.len() > 0 {
        seq![seq![], "Failures:"@] + failures.map_values(|f: (Seq<char>, Seq<char>)| "  "@ + f.0 + ": "@ + f.1)
    } else {
        seq![]
    })
}

pub open spec fn failures_view(f: Seq<(String, BaegunError)>) -> Seq<(Seq<char>, Seq<char>)> {
    f.map_values(|x: (String, BaegunError)| (x.0@, x.1.message@))
}

fn line3(a: &str, n: usize, b: &str) -> (r: Vec<char>)
    ensures
        r@ == a@ + decimal(n as nat) + b@,
{
    let mut v: Vec<char> = chars_of(a);
    extend_chars(&mut v, &decimal_exec(n as u64));
    extend_str(&mut v, b);
    v
}

impl BatchTally {
    /// The lines of the report printed after the batch.
    pub fn report_lines(&self) -> (r: Vec<String>)
        ensures
            strings_view(r@) == tally_report(
                self.successes as nat,
                failures_view(self.failures@),
                self.total_pages as nat,
                self.total_chapters as nat,
                self.total_images as nat,
                self.cache_hits as nat,
                self.sources_deleted as nat,
            ),
    {
        let mut r: Vec<String> = Vec::new();
        r.push(string_of(&Vec::new()));
        let mut l: Vec<char> = line3("Batch complete: ", self.successes, " succeeded, ");
        extend_chars(&mut l, &decimal_exec(self.failures.len() as u64));
        extend_str(&mut l, " failed.");
        r.push(string_of(&l));
        let ghost fv = failures_view(self.failures@);
        let ghost head = strings_view(r@);
        if self.successes > 0 {
            let mut t: Vec<char> = line3("Totals: ", self.total_pages, " pages, ");
            extend_chars(&mut t, &decimal_exec(self.total_chapters as u64));
            extend_str(&mut t, " chapters, ");
            extend_chars(&mut t, &decimal_exec(self.total_images as u64));
            extend_str(&mut t, " images, ");
            extend_chars(&mut t, &decimal_exec(self.cache_hits as u64));
            extend_str(&mut t, " PDF OCR cache hit(s).");
            r.push(string_of(&t));
        }
        if self.sources_deleted > 0 {
            r.push(string_of(&line3("Deleted ", self.sources_deleted, " source file(s).")));
        }
        let ghost mid = strings_view(r@);
        if self.failures.len() > 0 {
            r.push(string_of(&Vec::new()));
            r.push(string_of(&chars_of("Failures:")));
            let ghost base = strings_view(r@);
            let mut i: usize = 0;
            while i < self.failures.len()
                invariant
                    i <= self.failures.len(),
                    fv == failures_view(self.failures@),
                    strings_view(r@) == base + fv.take(i as int).map_values(|f: (Seq<char>, Seq<char>)| "  "@ + f.0 + ": "@ + f.1),
                decreases self.failures.len() - i,
            {
                let mut x: Vec<char> = chars_of("  ");
                extend_str(&mut x, self.failures[i].0.as_str());
                extend_str(&mut x, ": ");
                extend_str(&mut x, self.failures[i].1.message.as_str());
                let ghost before = r@;
                assert(fv[i as int] == (self.failures@[i as int].0@, self.failures@[i as int].1.message@));
                assert(x@ == "  "@ + fv[i as int].0 + ": "@ + fv[i as int].1);
                r.push(string_of(&x));
                assert(strings_view(r@) =~= strings_view(before).push(x@));
                assert(fv.take(i as int + 1).map_values(|f: (Seq<char>, Seq<char>)| "  "@ + f.0 + ": "@ + f.1)
                    =~= fv.take(i as int).map_values(|f: (Seq<char>, Seq<char>)| "  "@ + f.0 + ": "@ + f.1).push(x@));
                assert(strings_view(r@) =~= base + fv.take(i as int + 1).map_values(|f: (Seq<char>, Seq<char>)| "  "@ + f.0 + ": "@ + f.1));
                i += 1;
            }
            assert(fv.take(self.failures.len() as int) == fv);
        }
        assert(strings_view(r@) =~= tally_report(
            self.successes as nat,
            fv,
            self.total_pages as nat,
            self.total_chapters as nat,
            self.total_images as nat,
            self.cache_hits as nat,
            self.sources_deleted as nat,
        ));
        r
    }
}


// ---------------------------------------------------------------------------
// What is printed.
// ---------------------------------------------------------------------------

pub open spec fn bool_text(b: bool) -> Seq<char> {
    if b {
        "true"@
    } else {
        "false"@
    }
}

fn bool_text_exec(b: bool) -> (r: &'static str)
    ensures
        r@ == bool_text(b),
{
    if b {
        "true"
    } else {
        "false"
    }
}

/// The lines printed after a conversion: where the book went, the counts for
/// its kind of source, and the validation result when it was validated.
pub open spec fn summary_lines_spec(format: SourceFormat, s: ConvertSummary) -> Seq<Seq<char>> {
    seq![
        "Done: "@ + s.output_path@,
        match format {
            SourceFormat::Pdf => "Pages: "@ + decimal(s.pages_processed as nat) + ", chapters: "@
                + decimal(s.chapters as nat) + ", images: "@ + decimal(s.images as nat) + ", OCR cache: "@
                + (if s.cache_hit { "hit"@ } else { "miss"@ }),
            SourceFormat::Cbz => "Pages: "@ + decimal(s.pages_processed as nat) + ", fixed-layout pages: "@
                + decimal(s.chapters as nat) + ", images: "@ + decimal(s.images as nat),
        },
    ] + match s.validation {
        Some(v) => seq!["Validation: passed="@ + bool_text(v.passed) + ", warnings="@ + decimal(v.warnings as nat)
            + ", errors="@ + decimal(v.errors as nat)],
        None => seq![],
    }
}

pub fn summary_lines(format: SourceFormat, summary: &ConvertSummary) -> (r: Vec<String>)
    ensures
        strings_view(r@) == summary_lines_spec(format, *summary),
{
    let mut r: Vec<String> = Vec::new();
    let mut done: Vec<char> = chars_of("Done: ");
    extend_str(&mut done, summary.output_path.as_str());
    r.push(string_of(&done));
    let mut counts: Vec<char> = line3("Pages: ", summary.pages_processed, "");
    match format {
        SourceFormat::Pdf => {
            extend_str(&mut counts, ", chapters: ");
            extend_chars(&mut counts, &decimal_exec(summary.chapters as u64));
            extend_str(&mut counts, ", images: ");
            extend_chars(&mut counts, &decimal_exec(summary.images as u64));
            extend_str(&mut counts, ", OCR cache: ");
            extend_str(&mut counts, if summary.cache_hit { "hit" } else { "miss" });
        },
        SourceFormat::Cbz => {
            extend_str(&mut counts, ", fixed-layout pages: ");
            extend_chars(&mut counts, &decimal_exec(summary.chapters as u64));
            extend_str(&mut counts, ", images: ");
            extend_chars(&mut counts, &decimal_exec(summary.images as u64));
        },
    }
    proof {
        reveal_strlit("");
    }
    r.push(string_of(&counts));
    if let Some(v) = &summary.validation {
        let mut l: Vec<char> = chars_of("Validation: passed=");
        extend_str(&mut l, bool_text_exec(v.passed));
        extend_str(&mut l, ", warnings=");
        extend_chars(&mut l, &decimal_exec(v.warnings as u64));
        extend_str(&mut l, ", errors=");
        extend_chars(&mut l, &decimal_exec(v.errors as u64));
        r.push(string_of(&l));
    }
    assert(strings_view(r@) =~= summary_lines_spec(format, *summary));
    r
}

/// The line announcing a batch.
pub fn found_books_line(count: usize, input_dir: &str, recursive: bool) -> (r: String)
    ensures
        r@ == "Found "@ + decimal(count as nat) + " book file(s) in '"@ + input_dir@ + "'"@ + (if recursive {
            " (recursive)"@
        } else {
            seq![]
        }) + "."@,
{
    let mut l: Vec<char> = line3("Found ", count, " book file(s) in '");
    extend_str(&mut l, input_dir);
    extend_str(&mut l, "'");
    let ghost before = l@;
    if recursive {
        extend_str(&mut l, " (recursive)");
    }
    assert(l@ =~= before + (if recursive { " (recursive)"@ } else { Seq::<char>::empty() }));
    extend_str(&mut l, ".");
    string_of(&l)
}

/// The error for a directory without books.
pub fn no_books_error(input_dir: &str) -> (e: BaegunError)
    ensures
        e.kind == ErrorKind::BadArgs,
        e.message@ == "No PDF or CBZ files found in '"@ + input_dir@ + "'."@,
{
    let mut m: Vec<char> = chars_of("No PDF or CBZ files found in '");
    extend_str(&mut m, input_dir);
    extend_str(&mut m, "'.");
    BaegunError::bad_args(string_of(&m))
}

} // verus!
