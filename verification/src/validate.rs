//! Reading the report of an `epubcheck` run.
use vstd::prelude::*;
use crate::errors::{BaegunError, ErrorKind};
use crate::models::ValidationResult;
use crate::text::{
    chars_of, concat_str, decimal, decimal_exec, extend_chars, extend_str, is_blank, is_blank_exec,
    starts_with, starts_with_exec, string_from_utf8_lossy, string_of, utf8_lossy,
};

verus! {

/// The number of non-overlapping occurrences of `p` in `s`, found left to right
/// (`str::matches(p).count()` for a non-empty `p`).
pub open spec fn count_matches(s: Seq<char>, p: Seq<char>) -> nat
    decreases s.len(),
{
    if s.len() == 0 || p.len() == 0 {
        0
    } else if starts_with(s, p) {
        1 + count_matches(s.subrange(p.len() as int, s.len() as int), p)
    } else {
        count_matches(s.drop_first(), p)
    }
}

pub fn count_matches_exec(v: &[char], p: &[char]) -> (r: usize)
    requires
        p.len() > 0,
    ensures
        r == count_matches(v@, p@),
{
    let mut i: usize = 0;
    let mut n: usize = 0;
    assert(v@.subrange(0, v.len() as int) == v@);
    while i < v.len()
        invariant
            i <= v.len(),
            p.len() > 0,
            n <= i,
            n + count_matches(v@.subrange(i as int, v.len() as int), p@) == count_matches(v@, p@),
        decreases v.len() - i,
    {
        let rest = crate::text::sub_chars(v, i, v.len());
        let ghost rv = v@.subrange(i as int, v.len() as int);
        assert(rest@ == rv);
        if starts_with_exec(&rest, p) {
            assert(rv.subrange(p.len() as int, rv.len() as int) == v@.subrange(i + p.len(), v.len() as int));
            n += 1;
            i += p.len();
        } else {
            assert(rv.drop_first() == v@.subrange(i as int + 1, v.len() as int));
            i += 1;
        }
    }
    n
}

/// The report: standard output, then, when there is any, standard error after a
/// line feed (no line feed when standard output is empty).
pub open spec fn epubcheck_output(stdout: Seq<char>, stderr_bytes: Seq<u8>) -> Seq<char> {
    if stderr_bytes.len() == 0 {
        stdout
    } else if stdout.len() == 0 {
        utf8_lossy(stderr_bytes)
    } else {
        stdout + seq!['\n'] + utf8_lossy(stderr_bytes)
    }
}

/// The failure message for a report that did not pass.
pub open spec fn epubcheck_failure_message(raw: Seq<char>, warnings: nat, errors: nat, fail_on_warn: bool) -> Seq<char> {
    "epubcheck reported validation issues (errors: "@ + decimal(errors) + ", warnings: "@
        + decimal(warnings) + ")"@ + (if fail_on_warn && warnings > 0 && errors == 0 {
        "; fail-on-warn is enabled"@
    } else {
        seq![]
    }) + (if !is_blank(raw) {
        seq!['\n'] + raw
    } else {
        seq![]
    })
}

/// Judges an epubcheck run from its exit status and its output: the counts of
/// `WARNING` and `ERROR` in the report, and whether it passed (a successful
/// exit, and no warnings when warnings fail the run).
pub fn evaluate_epubcheck(stdout: &[u8], stderr: &[u8], success: bool, fail_on_warn: bool) -> (r: Result<ValidationResult, BaegunError>)
    ensures
        ({
            let raw = epubcheck_output(utf8_lossy(stdout@), stderr@);
            let warnings = count_matches(raw, "WARNING"@);
            let errors = count_matches(raw, "ERROR"@);
            let passed = success && !(fail_on_warn && warnings > 0);
            if passed {
                r matches Ok(v) && v.warnings == warnings && v.errors == errors && v.passed && v.raw_output@ == raw
            } else {
                r matches Err(e) && e.kind == ErrorKind::Validation
                    && e.message@ == epubcheck_failure_message(raw, warnings, errors, fail_on_warn)
            }
        }),
{
    proof {
        reveal_strlit("WARNING");
        reveal_strlit("ERROR");
    }
    let out = string_from_utf8_lossy(stdout);
    let mut raw: Vec<char> = chars_of(out.as_str());
    if stderr.len() > 0 {
        if raw.len() > 0 {
            raw.push('\n');
        }
        let err = string_from_utf8_lossy(stderr);
        extend_str(&mut raw, err.as_str());
    }
    proof {
        let ghost so = utf8_lossy(stdout@);
        if stderr@.len() > 0 && so.len() > 0 {
            assert(raw@ =~= so + seq!['\n'] + utf8_lossy(stderr@));
        } else if stderr@.len() > 0 {
            assert(raw@ =~= utf8_lossy(stderr@));
        }
    }
    let warnings = count_matches_exec(&raw, &chars_of("WARNING"));
    let errors = count_matches_exec(&raw, &chars_of("ERROR"));
    let passed = success && !(fail_on_warn && warnings > 0);
    if !passed {
        let mut m: Vec<char> = chars_of("epubcheck reported validation issues (errors: ");
        extend_chars(&mut m, &decimal_exec(errors as u64));
        extend_str(&mut m, ", warnings: ");
        extend_chars(&mut m, &decimal_exec(warnings as u64));
        extend_str(&mut m, ")");
        if fail_on_warn && warnings > 0 && errors == 0 {
            extend_str(&mut m, "; fail-on-warn is enabled");
        }
        let ghost before = m@;
        if !is_blank_exec(&raw) {
            m.push('\n');
            extend_chars(&mut m, &raw);
            assert(m@ =~= before + (seq!['\n'] + raw@));
        } else {
            assert(m@ =~= before + Seq::<char>::empty());
        }
        assert(m@ =~= epubcheck_failure_message(raw@, warnings as nat, errors as nat, fail_on_warn));
        return Err(BaegunError::validation(string_of(&m)));
    }
    Ok(ValidationResult { warnings, errors, passed, raw_output: string_of(&raw) })
}

} // verus!
