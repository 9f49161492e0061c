//! The conversion pipeline's decisions: what kind of source a file is, the
//! order of a conversion's outside work, and the progress reported along it.
use vstd::prelude::*;
use crate::errors::{BaegunError, ErrorKind};
use crate::models::{ConvertProgress, ConvertStage, SourceFormat};
use crate::paths::{extension_of, path_extension};
use crate::text::{
    ascii_lower, ascii_lower_exec, chars_eq_str, chars_of, extend_chars, extend_str, string_of,
};

verus! {

// ---------------------------------------------------------------------------
// Source format.
// ---------------------------------------------------------------------------

pub open spec fn upper_char(c: char) -> char {
    if 'a' <= c && c <= 'z' {
        ((c as u32) - 32) as char
    } else {
        c
    }
}

/// `str::to_ascii_uppercase`.
pub open spec fn ascii_upper(s: Seq<char>) -> Seq<char> {
    s.map_values(|c: char| upper_char(c))
}

fn ascii_upper_exec(v: &[char]) -> (r: Vec<char>)
    ensures
        r@ == ascii_upper(v@),
{
    let mut r: Vec<char> = Vec::new();
    let mut i: usize = 0;
    while i < v.len()
        invariant
            i <= v.len(),
            r@ == ascii_upper(v@.take(i as int)),
        decreases v.len() - i,
    {
        let c = v[i];
        let u = if 'a' <= c && c <= 'z' {
            let b = (c as u8) - 32;
            assert(b as char == ((c as u32) - 32) as char);
            b as char
        } else {
            c
        };
        r.push(u);
        assert(ascii_upper(v@.take(i as int + 1)) == ascii_upper(v@.take(i as int)).push(upper_char(v@[i as int])));
        i += 1;
    }
    assert(v@.take(v.len() as int) == v@);
    r
}

/// The format that a path's extension promises: `pdf` or `cbz` in any ASCII
/// case; anything else is refused with the reason.
pub open spec fn expected_format_spec(path: Seq<char>) -> Result<SourceFormat, Seq<char>> {
    match extension_of(path) {
        None => Err("Input must have a .pdf or .cbz extension."@),
        Some(e) => {
            let x = ascii_lower(e);
            if x == "pdf"@ {
                Ok(SourceFormat::Pdf)
            } else if x == "cbz"@ {
                Ok(SourceFormat::Cbz)
            } else {
                Err("Unsupported input extension '."@ + x + "'; expected .pdf or .cbz."@)
            }
        },
    }
}

/// The source format that a path's extension promises.
pub fn expected_source_format(path: &str) -> (r: Result<SourceFormat, BaegunError>)
    ensures
        match r {
            Ok(f) => expected_format_spec(path@) == Ok::<SourceFormat, Seq<char>>(f),
            Err(e) => e.kind == ErrorKind::BadArgs && expected_format_spec(path@) == Err::<SourceFormat, Seq<char>>(e.message@),
        },
{
    match path_extension(path) {
        None => Err(BaegunError::bad_args(string_of(&chars_of("Input must have a .pdf or .cbz extension.")))),
        Some(e) => {
            let x = ascii_lower_exec(&chars_of(e.as_str()));
            if chars_eq_str(&x, "pdf") {
                Ok(SourceFormat::Pdf)
            } else if chars_eq_str(&x, "cbz") {
                Ok(SourceFormat::Cbz)
            } else {
                let mut m: Vec<char> = chars_of("Unsupported input extension '.");
                extend_chars(&mut m, &x);
                extend_str(&mut m, "'; expected .pdf or .cbz.");
                Err(BaegunError::bad_args(string_of(&m)))
            }
        },
    }
}

pub open spec fn bytes_prefix(b: Seq<u8>, p: Seq<u8>) -> bool {
    b.len() >= p.len() && b.subrange(0, p.len() as int) == p
}

/// Whether the first bytes of a file carry the signature of its format: `%PDF-`
/// for a PDF, a ZIP record signature for a CBZ.
pub open spec fn signature_matches(format: SourceFormat, sig: Seq<u8>) -> bool {
    match format {
        SourceFormat::Pdf => bytes_prefix(sig, seq![0x25u8, 0x50u8, 0x44u8, 0x46u8, 0x2Du8]),
        SourceFormat::Cbz => bytes_prefix(sig, seq![0x50u8, 0x4Bu8, 3u8, 4u8]) || bytes_prefix(sig, seq![0x50u8, 0x4Bu8, 5u8, 6u8])
            || bytes_prefix(sig, seq![0x50u8, 0x4Bu8, 7u8, 8u8]),
    }
}

fn prefix_exec(b: &[u8], p: &[u8]) -> (r: bool)
    ensures
        r == bytes_prefix(b@, p@),
{
    if b.len() < p.len() {
        return false;
    }
    let mut i: usize = 0;
    while i < p.len()
        invariant
            i <= p.len() <= b.len(),
            forall|k: int| 0 <= k < i ==> b@[k] == p@[k],
        decreases p.len() - i,
    {
        if b[i] != p[i] {
            return false;
        }
        i += 1;
    }
    assert(b@.subrange(0, p.len() as int) =~= p@);
    true
}

/// Checks the first bytes of a file (at most eight) against the signature of the
/// format its extension promised.
pub fn verify_source_signature(path: &str, expected: SourceFormat, signature: &[u8]) -> (r: Result<SourceFormat, BaegunError>)
    requires
        expected_format_spec(path@) == Ok::<SourceFormat, Seq<char>>(expected),
    ensures
        signature_matches(expected, signature@) ==> r == Ok::<SourceFormat, BaegunError>(expected),
        !signature_matches(expected, signature@) ==> (r matches Err(e) && e.kind == ErrorKind::BadArgs
            && e.message@ == "Input '"@ + path@ + "' does not have a valid "@ + ascii_upper(ascii_lower(extension_of(path@)->0)) + " signature."@),
{
    let pdf: [u8; 5] = [0x25, 0x50, 0x44, 0x46, 0x2D];
    let zip1: [u8; 4] = [0x50, 0x4B, 3, 4];
    let zip2: [u8; 4] = [0x50, 0x4B, 5, 6];
    let zip3: [u8; 4] = [0x50, 0x4B, 7, 8];
    assert(pdf@ =~= seq![0x25u8, 0x50u8, 0x44u8, 0x46u8, 0x2Du8]);
    assert(zip1@ =~= seq![0x50u8, 0x4Bu8, 3u8, 4u8]);
    assert(zip2@ =~= seq![0x50u8, 0x4Bu8, 5u8, 6u8]);
    assert(zip3@ =~= seq![0x50u8, 0x4Bu8, 7u8, 8u8]);
    let valid = match expected {
        SourceFormat::Pdf => prefix_exec(signature, &pdf),
        SourceFormat::Cbz => prefix_exec(signature, &zip1) || prefix_exec(signature, &zip2) || prefix_exec(signature, &zip3),
    };
    if valid {
        return Ok(expected);
    }
    let ext = match path_extension(path) {
        Some(e) => e,
        None => string_of(&Vec::new()),
    };
    let upper = ascii_upper_exec(&ascii_lower_exec(&chars_of(ext.as_str())));
    let mut m: Vec<char> = chars_of("Input '");
    extend_str(&mut m, path);
    extend_str(&mut m, "' does not have a valid ");
    extend_chars(&mut m, &upper);
    extend_str(&mut m, " signature.");
    Err(BaegunError::bad_args(string_of(&m)))
}

/// The message for a file whose first bytes lack its format's signature.
pub open spec fn bad_signature_message(path: Seq<char>) -> Seq<char> {
    "Input '"@ + path + "' does not have a valid "@ + ascii_upper(ascii_lower(extension_of(path)->0)) + " signature."@
}

/// The format of a source from its path and its first bytes: the extension
/// decides the format, and the bytes must carry that format's signature.
pub fn check_source_signature(path: &str, signature: &[u8]) -> (r: Result<SourceFormat, BaegunError>)
    ensures
        match expected_format_spec(path@) {
            Err(m) => r matches Err(e) && e.kind == ErrorKind::BadArgs && e.message@ == m,
            Ok(f) => if signature_matches(f, signature@) {
                r == Ok::<SourceFormat, BaegunError>(f)
            } else {
                r matches Err(e) && e.kind == ErrorKind::BadArgs && e.message@ == bad_signature_message(path@)
            },
        },
{
    let expected = expected_source_format(path)?;
    verify_source_signature(path, expected, signature)
}


// ---------------------------------------------------------------------------
// Progress.
// ---------------------------------------------------------------------------

/// The points of a conversion at which progress is reported.
#[derive(Debug, Clone, Copy, PartialEq, Eq, Structural)]
pub enum Milestone {
    ReadingInput,
    CheckingCache,
    CachedOcr,
    FreshOcr,
    Normalizing,
    Packaging,
    Validating,
    Complete,
}

/// The number of steps a conversion reports: one more when it validates.
pub open spec fn total_steps_spec(format: SourceFormat, validate: bool) -> nat {
    match format {
        SourceFormat::Pdf => if validate { 6 } else { 5 },
        SourceFormat::Cbz => if validate { 5 } else { 4 },
    }
}

pub fn total_steps(format: SourceFormat, validate: bool) -> (r: usize)
    ensures
        r == total_steps_spec(format, validate),
{
    match format {
        SourceFormat::Pdf => if validate { 6 } else { 5 },
        SourceFormat::Cbz => if validate { 5 } else { 4 },
    }
}

/// The stage, step and message reported at a milestone of a PDF conversion.
pub open spec fn pdf_report(m: Milestone, total: nat) -> (ConvertStage, nat, Seq<char>) {
    match m {
        Milestone::ReadingInput => (ConvertStage::ReadingInput, 1, "Reading input PDF"@),
        Milestone::CheckingCache => (ConvertStage::Ocr, 2, "Checking OCR cache"@),
        Milestone::CachedOcr => (ConvertStage::Ocr, 2, "Using cached OCR payload"@),
        Milestone::FreshOcr => (ConvertStage::Ocr, 2, "Uploading PDF and running Mistral OCR"@),
        Milestone::Normalizing => (ConvertStage::Normalize, 3, "Resolving metadata, normalizing OCR output, and chapterizing content"@),
        Milestone::Packaging => (ConvertStage::PackageEpub, 4, "Packaging EPUB"@),
        Milestone::Validating => (ConvertStage::Validate, 5, "Running epubcheck validation"@),
        Milestone::Complete => (ConvertStage::Complete, total, "Conversion complete"@),
    }
}

/// The stage, step and message reported at a milestone of a CBZ conversion.
pub open spec fn cbz_report(m: Milestone, total: nat) -> (ConvertStage, nat, Seq<char>) {
    match m {
        Milestone::ReadingInput => (ConvertStage::ReadingInput, 1, "Reading CBZ archive"@),
        Milestone::Normalizing => (ConvertStage::Normalize, 2, "Validating and ordering local CBZ pages"@),
        Milestone::Packaging => (ConvertStage::PackageEpub, 3, "Packaging fixed-layout EPUB"@),
        Milestone::Validating => (ConvertStage::Validate, 4, "Running epubcheck validation"@),
        Milestone::Complete => (ConvertStage::Complete, total, "Conversion complete"@),
        _ => (ConvertStage::Normalize, 2, "Validating and ordering local CBZ pages"@),
    }
}

/// Whether the OCR cache is reported at a PDF milestone: not while reading or
/// checking, `true` for a cached payload, `false` for a fresh one, and whether
/// the cache was hit afterwards.
pub open spec fn pdf_cache_report(m: Milestone, cache_hit: bool) -> Option<bool> {
    match m {
        Milestone::ReadingInput | Milestone::CheckingCache => None,
        Milestone::CachedOcr => Some(true),
        Milestone::FreshOcr => Some(false),
        _ => Some(cache_hit),
    }
}

pub open spec fn progress_is(p: ConvertProgress, report: (ConvertStage, nat, Seq<char>), total: nat, cache_hit: Option<bool>) -> bool {
    &&& p.stage == report.0
    &&& p.step == report.1
    &&& p.total_steps == total
    &&& p.message@ == report.2
    &&& p.cache_hit == cache_hit
}

/// The progress report at a milestone of a conversion; a CBZ conversion never
/// uses the OCR cache.
pub fn progress_at(format: SourceFormat, m: Milestone, validate: bool, cache_hit: bool) -> (p: ConvertProgress)
    ensures
        format == SourceFormat::Pdf ==> progress_is(p, pdf_report(m, total_steps_spec(format, validate)), total_steps_spec(format, validate), pdf_cache_report(m, cache_hit)),
        format == SourceFormat::Cbz ==> progress_is(p, cbz_report(m, total_steps_spec(format, validate)), total_steps_spec(format, validate), Some(false)),
{
    let total = total_steps(format, validate);
    let (stage, step, message): (ConvertStage, usize, &str) = match format {
        SourceFormat::Pdf => match m {
            Milestone::ReadingInput => (ConvertStage::ReadingInput, 1, "Reading input PDF"),
            Milestone::CheckingCache => (ConvertStage::Ocr, 2, "Checking OCR cache"),
            Milestone::CachedOcr => (ConvertStage::Ocr, 2, "Using cached OCR payload"),
            Milestone::FreshOcr => (ConvertStage::Ocr, 2, "Uploading PDF and running Mistral OCR"),
            Milestone::Normalizing => (ConvertStage::Normalize, 3, "Resolving metadata, normalizing OCR output, and chapterizing content"),
            Milestone::Packaging => (ConvertStage::PackageEpub, 4, "Packaging EPUB"),
            Milestone::Validating => (ConvertStage::Validate, 5, "Running epubcheck validation"),
            Milestone::Complete => (ConvertStage::Complete, total, "Conversion complete"),
        },
        SourceFormat::Cbz => match m {
            Milestone::ReadingInput => (ConvertStage::ReadingInput, 1, "Reading CBZ archive"),
            Milestone::Packaging => (ConvertStage::PackageEpub, 3, "Packaging fixed-layout EPUB"),
            Milestone::Validating => (ConvertStage::Validate, 4, "Running epubcheck validation"),
            Milestone::Complete => (ConvertStage::Complete, total, "Conversion complete"),
            _ => (ConvertStage::Normalize, 2, "Validating and ordering local CBZ pages"),
        },
    };
    let cache: Option<bool> = match format {
        SourceFormat::Pdf => match m {
            Milestone::ReadingInput | Milestone::CheckingCache => None,
            Milestone::CachedOcr => Some(true),
            Milestone::FreshOcr => Some(false),
            _ => Some(cache_hit),
        },
        SourceFormat::Cbz => Some(false),
    };
    ConvertProgress { stage, step, total_steps: total, message: string_of(&chars_of(message)), cache_hit: cache }
}

/// The milestones of a conversion in the order they are reported: reading,
/// the OCR cache and OCR (PDF only), normalizing, packaging, validating when
/// asked, and completion.
pub open spec fn milestones(format: SourceFormat, validate: bool, cache_hit: bool) -> Seq<Milestone> {
    let middle = match format {
        SourceFormat::Pdf => seq![
            Milestone::CheckingCache,
            if cache_hit { Milestone::CachedOcr } else { Milestone::FreshOcr },
            Milestone::Normalizing,
            Milestone::Packaging,
        ],
        SourceFormat::Cbz => seq![Milestone::Normalizing, Milestone::Packaging],
    };
    seq![Milestone::ReadingInput] + middle + (if validate {
        seq![Milestone::Validating]
    } else {
        seq![]
    }) + seq![Milestone::Complete]
}

pub open spec fn report_step(format: SourceFormat, m: Milestone, total: nat) -> nat {
    match format {
        SourceFormat::Pdf => pdf_report(m, total).1,
        SourceFormat::Cbz => cbz_report(m, total).1,
    }
}

/// Along a conversion, steps start at 1, never go back, stay within the total,
/// and end with completion at the last step; validation is reported exactly
/// when it was asked for.
pub proof fn lemma_progress_runs_forward(format: SourceFormat, validate: bool, cache_hit: bool)
    ensures
        ({
            let ms = milestones(format, validate, cache_hit);
            let total = total_steps_spec(format, validate);
            &&& ms[0] == Milestone::ReadingInput && report_step(format, ms[0], total) == 1
            &&& ms.last() == Milestone::Complete && report_step(format, ms.last(), total) == total
            &&& forall|i: int, j: int| 0 <= i <= j < ms.len() ==> report_step(format, #[trigger] ms[i], total) <= report_step(format, #[trigger] ms[j], total)
            &&& forall|i: int| 0 <= i < ms.len() ==> 1 <= report_step(format, #[trigger] ms[i], total) <= total
            &&& ms.contains(Milestone::Validating) <==> validate
        }),
{
    let ms = milestones(format, validate, cache_hit);
    let total = total_steps_spec(format, validate);
    if validate {
        assert(ms[ms.len() - 2] == Milestone::Validating);
    } else {
        assert forall|i: int| 0 <= i < ms.len() implies ms[i] != Milestone::Validating by {}
    }
}


/// A PDF-only conversion refuses other sources.
pub fn require_pdf(format: SourceFormat) -> (r: Result<(), BaegunError>)
    ensures
        format == SourceFormat::Pdf ==> r is Ok,
        format != SourceFormat::Pdf ==> (r matches Err(e) && e.kind == ErrorKind::BadArgs
            && e.message@ == "convert_pdf_to_epub requires a PDF input."@),
{
    if format != SourceFormat::Pdf {
        return Err(BaegunError::bad_args(string_of(&chars_of("convert_pdf_to_epub requires a PDF input."))));
    }
    Ok(())
}


// ---------------------------------------------------------------------------
// The course of a conversion.
// ---------------------------------------------------------------------------

/// The outside work a conversion asks for next.
#[derive(Debug, Clone, Copy, PartialEq, Eq, Structural)]
pub enum Work {
    /// Read the source, refusing an output that is the same file.
    ReadSource,
    /// Look the OCR request up in the cache.
    CheckCache,
    /// Run OCR and cache its result.
    FetchOcr,
    /// Turn the OCR result (with the book's metadata) or the archive into a book.
    Render,
    /// Write the EPUB to a temporary file beside the output.
    Package,
    /// Run epubcheck on the temporary file.
    Validate,
    /// Move the temporary file into place.
    Publish,
    /// Nothing is left to do.
    Done,
}

/// Where a conversion stands.
#[derive(Debug, Clone, Copy, PartialEq, Eq, Structural)]
pub struct ConversionRun {
    pub format: SourceFormat,
    pub validate: bool,
    pub cache_hit: bool,
    pub next: Work,
}

pub open spec fn run_of(format: SourceFormat, validate: bool, cache_hit: bool, next: Work) -> ConversionRun {
    ConversionRun { format, validate, cache_hit, next }
}

/// A conversion's first work and what it reports before it: a PDF is read
/// first; an archive is read and ordered in one piece of work.
pub open spec fn start_spec(format: SourceFormat, validate: bool) -> (ConversionRun, Seq<Milestone>) {
    match format {
        SourceFormat::Pdf => (run_of(format, validate, false, Work::ReadSource), seq![Milestone::ReadingInput]),
        SourceFormat::Cbz => (
            run_of(format, validate, false, Work::Render),
            seq![Milestone::ReadingInput, Milestone::Normalizing],
        ),
    }
}

/// The work after the current one is done, and what is reported before it;
/// `found_in_cache` tells whether the cache held the OCR result (it matters
/// only after the cache was checked).
pub open spec fn advance_spec(run: ConversionRun, found_in_cache: bool) -> (ConversionRun, Seq<Milestone>) {
    let (f, v, h) = (run.format, run.validate, run.cache_hit);
    match run.next {
        Work::ReadSource => (run_of(f, v, h, Work::CheckCache), seq![Milestone::CheckingCache]),
        Work::CheckCache => if found_in_cache {
            (run_of(f, v, true, Work::Render), seq![Milestone::CachedOcr, Milestone::Normalizing])
        } else {
            (run_of(f, v, h, Work::FetchOcr), seq![Milestone::FreshOcr])
        },
        Work::FetchOcr => (run_of(f, v, h, Work::Render), seq![Milestone::Normalizing]),
        Work::Render => (run_of(f, v, h, Work::Package), seq![Milestone::Packaging]),
        Work::Package => if v {
            (run_of(f, v, h, Work::Validate), seq![Milestone::Validating])
        } else {
            (run_of(f, v, h, Work::Publish), seq![])
        },
        Work::Validate => (run_of(f, v, h, Work::Publish), seq![]),
        Work::Publish => (run_of(f, v, h, Work::Done), seq![Milestone::Complete]),
        Work::Done => (run, seq![]),
    }
}

impl ConversionRun {
    /// Starts a conversion.
    pub fn start(format: SourceFormat, validate: bool) -> (r: (ConversionRun, Vec<Milestone>))
        ensures
            (r.0, r.1@) == start_spec(format, validate),
    {
        match format {
            SourceFormat::Pdf => {
                let reports = vec![Milestone::ReadingInput];
                assert(reports@ =~= seq![Milestone::ReadingInput]);
                (ConversionRun { format, validate, cache_hit: false, next: Work::ReadSource }, reports)
            },
            SourceFormat::Cbz => {
                let reports = vec![Milestone::ReadingInput, Milestone::Normalizing];
                assert(reports@ =~= seq![Milestone::ReadingInput, Milestone::Normalizing]);
                (ConversionRun { format, validate, cache_hit: false, next: Work::Render }, reports)
            },
        }
    }

    /// Records that the current work is done and moves to the next; gives the
    /// milestones to report before it.
    pub fn advance(&mut self, found_in_cache: bool) -> (reports: Vec<Milestone>)
        ensures
            (*final(self), reports@) == advance_spec(*old(self), found_in_cache),
    {
        let mut reports: Vec<Milestone> = Vec::new();
        match self.next {
            Work::ReadSource => {
                self.next = Work::CheckCache;
                reports.push(Milestone::CheckingCache);
            },
            Work::CheckCache => {
                if found_in_cache {
                    self.cache_hit = true;
                    self.next = Work::Render;
                    reports.push(Milestone::CachedOcr);
                    reports.push(Milestone::Normalizing);
                } else {
                    self.next = Work::FetchOcr;
                    reports.push(Milestone::FreshOcr);
                }
            },
            Work::FetchOcr => {
                self.next = Work::Render;
                reports.push(Milestone::Normalizing);
            },
            Work::Render => {
                self.next = Work::Package;
                reports.push(Milestone::Packaging);
            },
            Work::Package => {
                if self.validate {
                    self.next = Work::Validate;
                    reports.push(Milestone::Validating);
                } else {
                    self.next = Work::Publish;
                }
            },
            Work::Validate => {
                self.next = Work::Publish;
            },
            Work::Publish => {
                self.next = Work::Done;
                reports.push(Milestone::Complete);
            },
            Work::Done => {},
        }
        assert(reports@ =~= advance_spec(*old(self), found_in_cache).1);
        reports
    }
}

/// What a run reports from `run` on, over at most `fuel` more pieces of work.
pub open spec fn reports_from(run: ConversionRun, found_in_cache: bool, fuel: nat) -> Seq<Milestone>
    decreases fuel,
{
    if fuel == 0 || run.next == Work::Done {
        seq![]
    } else {
        let (next, reports) = advance_spec(run, found_in_cache);
        reports + reports_from(next, found_in_cache, (fuel - 1) as nat)
    }
}

/// Where a run stands after at most `fuel` more pieces of work.
pub open spec fn state_after(run: ConversionRun, found_in_cache: bool, fuel: nat) -> ConversionRun
    decreases fuel,
{
    if fuel == 0 || run.next == Work::Done {
        run
    } else {
        state_after(advance_spec(run, found_in_cache).0, found_in_cache, (fuel - 1) as nat)
    }
}

proof fn lemma_step(run: ConversionRun, found_in_cache: bool, fuel: nat)
    requires
        fuel > 0,
        run.next != Work::Done,
    ensures
        reports_from(run, found_in_cache, fuel) == advance_spec(run, found_in_cache).1 + reports_from(
            advance_spec(run, found_in_cache).0,
            found_in_cache,
            (fuel - 1) as nat,
        ),
        state_after(run, found_in_cache, fuel) == state_after(advance_spec(run, found_in_cache).0, found_in_cache, (fuel - 1) as nat),
{
}

proof fn lemma_done(run: ConversionRun, found_in_cache: bool, fuel: nat)
    requires
        run.next == Work::Done,
    ensures
        reports_from(run, found_in_cache, fuel) == Seq::<Milestone>::empty(),
        state_after(run, found_in_cache, fuel) == run,
{
}

/// The states a run can reach.
spec fn reachable(run: ConversionRun, found_in_cache: bool) -> bool {
    let before_ocr = run.next == Work::ReadSource || run.next == Work::CheckCache || run.next == Work::FetchOcr;
    &&& run.format == SourceFormat::Cbz ==> !before_ocr
    &&& run.next == Work::FetchOcr ==> !found_in_cache
    &&& run.next == Work::Validate ==> run.validate
    &&& run.cache_hit == (run.format == SourceFormat::Pdf && found_in_cache && !before_ocr)
}

proof fn lemma_before_step(cur: ConversionRun, found_in_cache: bool)
    requires
        reachable(cur, found_in_cache),
        cur.next != Work::Done,
    ensures
        milestones_before(cur, found_in_cache) + advance_spec(cur, found_in_cache).1 == milestones_before(
            advance_spec(cur, found_in_cache).0,
            found_in_cache,
        ),
        reachable(advance_spec(cur, found_in_cache).0, found_in_cache),
        steps_left(advance_spec(cur, found_in_cache).0) < steps_left(cur),
        advance_spec(cur, found_in_cache).0.format == cur.format,
        advance_spec(cur, found_in_cache).0.validate == cur.validate,
{
    let f = found_in_cache;
    let all = milestones(cur.format, cur.validate, f);
    let (next, reports) = advance_spec(cur, f);
    let a = milestones_before(cur, f);
    let b = milestones_before(next, f);
    match cur.format {
        SourceFormat::Pdf => {
            assert(all.len() == if cur.validate { 7int } else { 6int });
            match cur.next {
                Work::ReadSource => assert(a + reports =~= b),
                Work::CheckCache => assert(a + reports =~= b),
                Work::FetchOcr => assert(a + reports =~= b),
                Work::Render => assert(a + reports =~= b),
                Work::Package => assert(a + reports =~= b),
                Work::Validate => assert(a + reports =~= b),
                Work::Publish => assert(a + reports =~= b),
                Work::Done => {},
            }
        },
        SourceFormat::Cbz => {
            assert(all.len() == if cur.validate { 5int } else { 4int });
            match cur.next {
                Work::Render => assert(a + reports =~= b),
                Work::Package => assert(a + reports =~= b),
                Work::Validate => assert(a + reports =~= b),
                Work::Publish => assert(a + reports =~= b),
                _ => {},
            }
        },
    }
}

proof fn lemma_rest_of_run(cur: ConversionRun, found_in_cache: bool, fuel: nat)
    requires
        reachable(cur, found_in_cache),
        fuel >= steps_left(cur),
    ensures
        milestones_before(cur, found_in_cache) + reports_from(cur, found_in_cache, fuel) == milestones(
            cur.format,
            cur.validate,
            found_in_cache,
        ),
        state_after(cur, found_in_cache, fuel).next == Work::Done,
        state_after(cur, found_in_cache, fuel).cache_hit == (cur.format == SourceFormat::Pdf && found_in_cache),
    decreases fuel,
{
    let f = found_in_cache;
    let all = milestones(cur.format, cur.validate, f);
    if cur.next == Work::Done {
        lemma_done(cur, f, fuel);
        assert(all.take(all.len() as int) =~= all);
        assert(milestones_before(cur, f) + Seq::<Milestone>::empty() =~= all);
    } else {
        lemma_step(cur, f, fuel);
        let (next, reports) = advance_spec(cur, f);
        lemma_before_step(cur, f);
        lemma_rest_of_run(next, f, (fuel - 1) as nat);
        assert(milestones_before(cur, f) + (reports + reports_from(next, f, (fuel - 1) as nat))
            =~= milestones_before(next, f) + reports_from(next, f, (fuel - 1) as nat));
    }
}

/// A conversion driven to its end reports exactly its milestones, in order,
/// and ends having used the cache only for a PDF whose OCR result was found.
pub proof fn lemma_run_reports_its_milestones(format: SourceFormat, validate: bool, found_in_cache: bool)
    ensures
        ({
            let (run, first) = start_spec(format, validate);
            &&& first + reports_from(run, found_in_cache, 8) == milestones(format, validate, found_in_cache)
            &&& state_after(run, found_in_cache, 8).next == Work::Done
            &&& state_after(run, found_in_cache, 8).cache_hit == (format == SourceFormat::Pdf && found_in_cache)
        }),
{
    let (run, first) = start_spec(format, validate);
    assert(first =~= milestones_before(run, found_in_cache));
    lemma_rest_of_run(run, found_in_cache, 8);
}

/// How many pieces of work are left after the current one's turn.
spec fn steps_left(run: ConversionRun) -> nat {
    match run.next {
        Work::ReadSource => 7,
        Work::CheckCache => 6,
        Work::FetchOcr => 5,
        Work::Render => 4,
        Work::Package => 3,
        Work::Validate => 2,
        Work::Publish => 1,
        Work::Done => 0,
    }
}

/// The milestones reported before the run reached `run.next`.
spec fn milestones_before(run: ConversionRun, found_in_cache: bool) -> Seq<Milestone> {
    let all = milestones(run.format, run.validate, found_in_cache);
    let head = match run.format {
        SourceFormat::Pdf => match run.next {
            Work::ReadSource => 1int,
            Work::CheckCache => 2,
            Work::FetchOcr => 3,
            Work::Render => 4,
            Work::Package => 5,
            Work::Validate => 6,
            Work::Publish => if run.validate { 6 } else { 5 },
            Work::Done => all.len() as int,
        },
        SourceFormat::Cbz => match run.next {
            Work::Render => 2int,
            Work::Package => 3,
            Work::Validate => 4,
            Work::Publish => if run.validate { 4 } else { 3 },
            Work::Done => all.len() as int,
            _ => 0,
        },
    };
    all.take(head)
}

} // verus!
