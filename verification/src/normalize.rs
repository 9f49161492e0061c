//! Turning OCR markdown into chapters: header/footer stripping, table and image
//! placeholders, chapter boundaries, asset names and XHTML documents.
use vstd::prelude::*;
use base64::Engine;
use crate::errors::{BaegunError, ErrorKind};
use crate::models::{
    BookMetadata, ConvertConfig, ImageAsset, MistralOcrResponse, OcrImage, OcrPage, OcrTable,
    PageProgressionDirection, RenderedBook, RenderedChapter, TableFormat,
};
use crate::patterns::{
    regex_captures, regex_escape, regex_escape_spec, regex_first_captures, regex_is_match,
    regex_match_pieces, regex_matches, regex_pieces, regex_replace_all, regex_replaced,
    piece_view, groups_view, group_text, group_exec,
};
use crate::text::{
    chars_of, digit_char, extend_chars, extend_str, in_class, is_ws, is_ascii_alnum, is_ascii_alnum_exec, is_blank,
    is_blank_exec, join, join_range, last_index_of, last_index_of_exec, lemma_trim_class_shape,
    zero_padded, zero_padded_exec, lemma_deep_view_chars, clone_opt, decimal, decimal_exec,
    ends_with, ends_with_exec, opt_view, replace_exec, replace_spec, starts_with, starts_with_exec,
    trim_end, trim_end_class, trim_end_class_exec, trim_end_exec, trim_start, trim_start_class,
    trim_start_class_exec, trim_start_exec, xml_escape_chars, xml_escape_spec, join_all,
    strings_view, ascii_lower, ascii_lower_exec, chars_eq_str, sub_chars, lines, lines_exec, lower_char,
    lower_char_exec, string_of, trim, trim_class, trim_class_exec, trim_exec, CharClass, opt_chars,
};

verus! {

// ---------------------------------------------------------------------------
// Chapter boundaries.
// ---------------------------------------------------------------------------

/// An ATX heading line: up to three spaces, one to six `#`, text, optional closing `#`s.
pub open spec fn heading_pattern() -> Seq<char> {
    "^\\s{0,3}(#{1,6})\\s+(.+?)\\s*#*\\s*$"@
}

/// A setext underline: up to three spaces, then a run of `=` or of `-`.
pub open spec fn setext_pattern() -> Seq<char> {
    "^\\s{0,3}(=+|-+)\\s*$"@
}

/// A chapter-style line such as `CHAPTER 12` or `Part iv`.
pub open spec fn chapter_line_pattern() -> Seq<char> {
    "(?i)^\\s*(chapter|part)\\s+([0-9ivxlcdm]+)\\b.*$"@
}

/// A heading title: trimmed, then stripped of surrounding `#`, then trimmed again.
pub open spec fn sanitize_heading_title_spec(s: Seq<char>) -> Seq<char> {
    trim(trim_class(trim(s), CharClass::Exactly('#')))
}

pub fn sanitize_heading_title(v: &[char]) -> (r: Vec<char>)
    ensures
        r@ == sanitize_heading_title_spec(v@),
{
    let a = trim_exec(v);
    let b = trim_class_exec(&a, CharClass::Exactly('#'));
    trim_exec(&b)
}

/// A place where a chapter starts: its line, heading level and title.
pub struct ChapterBoundary {
    pub start_line: usize,
    pub level: u8,
    pub title: Vec<char>,
}

pub open spec fn boundary_view(b: ChapterBoundary) -> (int, u8, Seq<char>) {
    (b.start_line as int, b.level, b.title@)
}

pub open spec fn boundaries_view(bs: Seq<ChapterBoundary>) -> Seq<(int, u8, Seq<char>)> {
    bs.map_values(|b: ChapterBoundary| boundary_view(b))
}


/// The level and title of an ATX heading line with a non-empty title.
pub open spec fn atx_heading(line: Seq<char>) -> Option<(u8, Seq<char>)> {
    match regex_first_captures(heading_pattern(), line) {
        Some(g) => {
            let level: u8 = match group_text(g, 1) {
                Some(m) => m.len() as u8,
                None => 1,
            };
            let title = match group_text(g, 2) {
                Some(m) => sanitize_heading_title_spec(m),
                None => seq![],
            };
            if title.len() > 0 {
                Some((level, title))
            } else {
                None
            }
        },
        None => None,
    }
}

/// The level a setext underline gives the line above it: 1 for `=`, 2 for `-`.
pub open spec fn setext_level(line: Seq<char>) -> Option<u8> {
    match regex_first_captures(setext_pattern(), line) {
        Some(g) => {
            let marker = match group_text(g, 1) {
                Some(m) => m,
                None => seq![],
            };
            if marker.len() > 0 && marker[0] == '=' {
                Some(1u8)
            } else {
                Some(2u8)
            }
        },
        None => None,
    }
}

/// The heading candidates of `lines[i ..]`, scanning forward: an ATX heading
/// line, or a non-blank line followed by a setext underline (both lines consumed).
pub open spec fn heading_candidates_from(lines: Seq<Seq<char>>, i: int) -> Seq<(int, u8, Seq<char>)>
    decreases lines.len() - i,
{
    if i < 0 || i >= lines.len() {
        seq![]
    } else {
        match atx_heading(lines[i]) {
            Some((level, title)) => seq![(i, level, title)] + heading_candidates_from(lines, i + 1),
            None => {
                if i + 1 < lines.len() && !is_blank(lines[i]) && setext_level(lines[i + 1]) is Some
                    && sanitize_heading_title_spec(trim(lines[i])).len() > 0 {
                    seq![(i, setext_level(lines[i + 1])->0, sanitize_heading_title_spec(trim(lines[i])))]
                        + heading_candidates_from(lines, i + 2)
                } else {
                    heading_candidates_from(lines, i + 1)
                }
            },
        }
    }
}

pub open spec fn heading_candidates(lines: Seq<Seq<char>>) -> Seq<(int, u8, Seq<char>)> {
    heading_candidates_from(lines, 0)
}

/// Start lines strictly increase, and all lie in `[lo, hi)`.
pub open spec fn increasing_within(bs: Seq<(int, u8, Seq<char>)>, lo: int, hi: int) -> bool {
    &&& forall|k: int| 0 <= k < bs.len() ==> lo <= (#[trigger] bs[k]).0 < hi
    &&& forall|a: int, b: int| 0 <= a < b < bs.len() ==> (#[trigger] bs[a]).0 < (#[trigger] bs[b]).0
}

proof fn lemma_heading_candidates_increasing(lines: Seq<Seq<char>>, i: int)
    requires
        0 <= i,
    ensures
        increasing_within(heading_candidates_from(lines, i), i, lines.len() as int),
    decreases lines.len() - i,
{
    if i < lines.len() {
        lemma_heading_candidates_increasing(lines, i + 1);
        if i + 2 <= lines.len() {
            lemma_heading_candidates_increasing(lines, i + 2);
        }
        let r = heading_candidates_from(lines, i);
        match atx_heading(lines[i]) {
            Some((level, title)) => {
                let rest = heading_candidates_from(lines, i + 1);
                assert forall|k: int| 1 <= k < r.len() implies r[k] == rest[k - 1] by {}
            },
            None => {
                if i + 1 < lines.len() && !is_blank(lines[i]) && setext_level(lines[i + 1]) is Some
                    && sanitize_heading_title_spec(trim(lines[i])).len() > 0 {
                    let rest = heading_candidates_from(lines, i + 2);
                    assert forall|k: int| 1 <= k < r.len() implies r[k] == rest[k - 1] by {}
                }
            },
        }
    }
}

fn atx_heading_exec(line: &Vec<char>) -> (r: Option<(u8, Vec<char>)>)
    ensures
        match r {
            Some((level, title)) => atx_heading(line@) == Some((level, title@)),
            None => atx_heading(line@) is None,
        },
{
    let text = string_of(line);
    let caps = regex_captures("^\\s{0,3}(#{1,6})\\s+(.+?)\\s*#*\\s*$", text.as_str());
    match caps {
        Some(g) => {
            let level: u8 = if g.len() > 1 {
                match &g[1] {
                    Some(m) => {
                        let mv = chars_of(m.as_str());
                        mv.len() as u8
                    },
                    None => 1,
                }
            } else {
                1
            };
            let title: Vec<char> = if g.len() > 2 {
                match &g[2] {
                    Some(m) => {
                        let mv = chars_of(m.as_str());
                        sanitize_heading_title(&mv)
                    },
                    None => Vec::new(),
                }
            } else {
                Vec::new()
            };
            if title.len() > 0 {
                Some((level, title))
            } else {
                None
            }
        },
        None => None,
    }
}

fn setext_level_exec(line: &Vec<char>) -> (r: Option<u8>)
    ensures
        r == setext_level(line@),
{
    let text = string_of(line);
    let caps = regex_captures("^\\s{0,3}(=+|-+)\\s*$", text.as_str());
    match caps {
        Some(g) => {
            let mut is_eq = false;
            if g.len() > 1 {
                if let Some(m) = &g[1] {
                    let mv = chars_of(m.as_str());
                    is_eq = mv.len() > 0 && mv[0] == '=';
                }
            }
            if is_eq {
                Some(1u8)
            } else {
                Some(2u8)
            }
        },
        None => None,
    }
}

/// ATX and setext heading candidates, in line order.
pub fn collect_heading_candidates(lines: &Vec<Vec<char>>) -> (r: Vec<ChapterBoundary>)
    ensures
        boundaries_view(r@) == heading_candidates(lines.deep_view()),
{
    let ghost lv = lines.deep_view();
    let mut r: Vec<ChapterBoundary> = Vec::new();
    let mut index: usize = 0;
    while index < lines.len()
        invariant
            lv == lines.deep_view(),
            index <= lines.len() + 1,
            boundaries_view(r@) + heading_candidates_from(lv, index as int) == heading_candidates(lv),
        decreases lines.len() + 1 - index,
    {
        assert(lv[index as int] == lines[index as int]@);
        let line = &lines[index];
        if let Some((level, title)) = atx_heading_exec(line) {
            let ghost old_r = boundaries_view(r@);
            r.push(ChapterBoundary { start_line: index, level, title });
            assert(boundaries_view(r@) =~= old_r.push((index as int, level, (atx_heading(lv[index as int])->0).1)));
            assert(boundaries_view(r@) + heading_candidates_from(lv, index + 1) =~= old_r
                + heading_candidates_from(lv, index as int));
            index += 1;
            continue;
        }
        if index + 1 < lines.len() {
            assert(lv[index + 1] == lines[index + 1]@);
            if !is_blank_exec(line) {
                if let Some(level) = setext_level_exec(&lines[index + 1]) {
                    let current = trim_exec(line);
                    let title = sanitize_heading_title(&current);
                    if title.len() > 0 {
                        let ghost old_r = boundaries_view(r@);
                        r.push(ChapterBoundary { start_line: index, level, title });
                        assert(boundaries_view(r@) + heading_candidates_from(lv, index + 2)
                            =~= old_r + heading_candidates_from(lv, index as int));
                        index += 2;
                        continue;
                    }
                }
            }
        }
        index += 1;
    }
    r
}

/// The boundaries of the given level, in order.
pub open spec fn only_level(bs: Seq<(int, u8, Seq<char>)>, level: u8) -> Seq<(int, u8, Seq<char>)>
    decreases bs.len(),
{
    if bs.len() == 0 {
        seq![]
    } else {
        let r = only_level(bs.drop_last(), level);
        if bs.last().1 == level {
            r.push(bs.last())
        } else {
            r
        }
    }
}

/// Level-1 headings when there are any; otherwise level-2 headings when there are
/// at least two; otherwise none.
pub open spec fn choose_split(bs: Seq<(int, u8, Seq<char>)>) -> Seq<(int, u8, Seq<char>)> {
    if only_level(bs, 1).len() > 0 {
        only_level(bs, 1)
    } else if only_level(bs, 2).len() >= 2 {
        only_level(bs, 2)
    } else {
        seq![]
    }
}

proof fn lemma_only_level_increasing(bs: Seq<(int, u8, Seq<char>)>, level: u8, lo: int, hi: int)
    requires
        increasing_within(bs, lo, hi),
    ensures
        increasing_within(only_level(bs, level), lo, hi),
        forall|k: int| 0 <= k < only_level(bs, level).len() ==> exists|j: int|
            0 <= j < bs.len() && #[trigger] only_level(bs, level)[k] == bs[j],
    decreases bs.len(),
{
    if bs.len() > 0 {
        let d = bs.drop_last();
        assert forall|k: int| 0 <= k < d.len() implies lo <= (#[trigger] d[k]).0 < hi by {
            assert(d[k] == bs[k]);
        }
        assert forall|a: int, b: int| 0 <= a < b < d.len() implies (#[trigger] d[a]).0 < (
        #[trigger] d[b]).0 by {
            assert(d[a] == bs[a] && d[b] == bs[b]);
        }
        lemma_only_level_increasing(d, level, lo, hi);
        let r = only_level(d, level);
        if bs.last().1 == level {
            let r2 = r.push(bs.last());
            assert forall|k: int| 0 <= k < r.len() implies (#[trigger] r2[k]).0 < bs.last().0 by {
                let j = choose|j: int| 0 <= j < d.len() && r[k] == d[j];
                assert(d[j] == bs[j]);
            }
            assert forall|k: int| 0 <= k < r2.len() implies exists|j: int|
                0 <= j < bs.len() && #[trigger] r2[k] == bs[j] by {
                if k < r.len() {
                    let j = choose|j: int| 0 <= j < d.len() && r[k] == d[j];
                    assert(d[j] == bs[j]);
                } else {
                    assert(r2[k] == bs[bs.len() - 1]);
                }
            }
        } else {
            assert forall|k: int| 0 <= k < r.len() implies exists|j: int|
                0 <= j < bs.len() && #[trigger] r[k] == bs[j] by {
                let j = choose|j: int| 0 <= j < d.len() && r[k] == d[j];
                assert(d[j] == bs[j]);
            }
        }
    }
}

fn only_level_exec(bs: &Vec<ChapterBoundary>, level: u8) -> (r: Vec<ChapterBoundary>)
    ensures
        boundaries_view(r@) == only_level(boundaries_view(bs@), level),
{
    let ghost bv = boundaries_view(bs@);
    let mut r: Vec<ChapterBoundary> = Vec::new();
    let mut i: usize = 0;
    while i < bs.len()
        invariant
            i <= bs.len(),
            bv == boundaries_view(bs@),
            boundaries_view(r@) == only_level(bv.take(i as int), level),
        decreases bs.len() - i,
    {
        assert(bv.take(i as int + 1).drop_last() == bv.take(i as int));
        assert(bv.take(i as int + 1).last() == boundary_view(bs@[i as int]));
        if bs[i].level == level {
            let ghost old_r = boundaries_view(r@);
            let b = ChapterBoundary {
                start_line: bs[i].start_line,
                level: bs[i].level,
                title: bs[i].title.clone(),
            };
            assert(b.title@ == bs@[i as int].title@);
            r.push(b);
            assert(boundaries_view(r@) =~= old_r.push(boundary_view(bs@[i as int])));
        }
        i += 1;
    }
    assert(bv.take(bs.len() as int) == bv);
    r
}

/// Level-1 headings if present, else level-2 headings if at least two.
pub fn choose_split_boundaries(candidates: &Vec<ChapterBoundary>) -> (r: Vec<ChapterBoundary>)
    ensures
        boundaries_view(r@) == choose_split(boundaries_view(candidates@)),
{
    let ones = only_level_exec(candidates, 1);
    if ones.len() > 0 {
        return ones;
    }
    let twos = only_level_exec(candidates, 2);
    if twos.len() >= 2 {
        return twos;
    }
    let r: Vec<ChapterBoundary> = Vec::new();
    assert(boundaries_view(r@) =~= seq![]);
    r
}

/// A line that reads like `Chapter 3` or `PART IV`: trimmed, at most 90 characters,
/// matching the chapter-line pattern, and preceded by a blank line or the start.
pub open spec fn is_chapter_line(lines: Seq<Seq<char>>, index: int) -> bool {
    let t = trim(lines[index]);
    &&& t.len() > 0
    &&& t.len() <= 90
    &&& regex_matches(chapter_line_pattern(), t) == Some(true)
    &&& (index == 0 || is_blank(lines[index - 1]))
}

pub open spec fn chapter_lines_upto(lines: Seq<Seq<char>>, n: int) -> Seq<(int, u8, Seq<char>)>
    decreases n,
{
    if n <= 0 {
        seq![]
    } else {
        let r = chapter_lines_upto(lines, n - 1);
        if is_chapter_line(lines, n - 1) {
            r.push((n - 1, 1u8, sanitize_heading_title_spec(trim(lines[n - 1]))))
        } else {
            r
        }
    }
}

/// Chapter-style lines, when there are at least two of them.
pub open spec fn chapter_line_boundaries(lines: Seq<Seq<char>>) -> Seq<(int, u8, Seq<char>)> {
    let bs = chapter_lines_upto(lines, lines.len() as int);
    if bs.len() >= 2 {
        bs
    } else {
        seq![]
    }
}

proof fn lemma_chapter_lines_increasing(lines: Seq<Seq<char>>, n: int)
    requires
        0 <= n <= lines.len(),
    ensures
        increasing_within(chapter_lines_upto(lines, n), 0, n),
    decreases n,
{
    if n > 0 {
        lemma_chapter_lines_increasing(lines, n - 1);
    }
}

pub fn collect_chapter_line_boundaries(lines: &Vec<Vec<char>>) -> (r: Vec<ChapterBoundary>)
    ensures
        boundaries_view(r@) == chapter_line_boundaries(lines.deep_view()),
{
    let ghost lv = lines.deep_view();
    let mut r: Vec<ChapterBoundary> = Vec::new();
    let mut index: usize = 0;
    while index < lines.len()
        invariant
            index <= lines.len(),
            lv == lines.deep_view(),
            boundaries_view(r@) == chapter_lines_upto(lv, index as int),
        decreases lines.len() - index,
    {
        assert(lv[index as int] == lines[index as int]@);
        let trimmed = trim_exec(&lines[index]);
        let mut accept = trimmed.len() > 0 && trimmed.len() <= 90;
        if accept {
            let text = string_of(&trimmed);
            let m = regex_is_match("(?i)^\\s*(chapter|part)\\s+([0-9ivxlcdm]+)\\b.*$", text.as_str());
            accept = m == Some(true);
        }
        if accept && index > 0 {
            assert(lv[index - 1] == lines[index - 1]@);
            accept = is_blank_exec(&lines[index - 1]);
        }
        if accept {
            let title = sanitize_heading_title(&trimmed);
            let ghost old_r = boundaries_view(r@);
            r.push(ChapterBoundary { start_line: index, level: 1, title });
            assert(boundaries_view(r@) =~= old_r.push((index as int, 1u8, title@)));
        }
        index += 1;
    }
    if r.len() >= 2 {
        r
    } else {
        let e: Vec<ChapterBoundary> = Vec::new();
        assert(boundaries_view(e@) =~= seq![]);
        e
    }
}

/// Heading boundaries when a heading level qualifies, else chapter-style lines.
pub open spec fn chapter_boundaries(lines: Seq<Seq<char>>) -> Seq<(int, u8, Seq<char>)> {
    let b = choose_split(heading_candidates(lines));
    if b.len() == 0 {
        chapter_line_boundaries(lines)
    } else {
        b
    }
}

/// `lines[a .. b]` joined by line feeds and trimmed.
pub open spec fn chunk_text(lines: Seq<Seq<char>>, a: int, b: int) -> Seq<char> {
    trim(join(lines.subrange(a, b), "\n"@))
}

/// The chapters cut at boundaries `k ..`, the current chapter having the given
/// title and starting at line `cursor`; chunks that are blank are dropped.
pub open spec fn chunks_from(
    lines: Seq<Seq<char>>,
    bs: Seq<(int, u8, Seq<char>)>,
    k: int,
    title: Seq<char>,
    cursor: int,
) -> Seq<(Seq<char>, Seq<char>)>
    decreases bs.len() - k,
{
    if k < 0 || k >= bs.len() {
        if cursor < lines.len() && chunk_text(lines, cursor, lines.len() as int).len() > 0 {
            seq![(title, chunk_text(lines, cursor, lines.len() as int))]
        } else {
            seq![]
        }
    } else {
        let b = bs[k];
        let pre = if b.0 > cursor && chunk_text(lines, cursor, b.0).len() > 0 {
            seq![(title, chunk_text(lines, cursor, b.0))]
        } else {
            seq![]
        };
        pre + chunks_from(lines, bs, k + 1, b.2, b.0)
    }
}

/// A short final chapter (under 400 characters) is folded into the one before it
/// when there are at least three.
pub open spec fn merge_trailing(cs: Seq<(Seq<char>, Seq<char>)>) -> Seq<(Seq<char>, Seq<char>)> {
    if cs.len() >= 3 && cs.last().1.len() < 400 {
        let prev = cs[cs.len() - 2];
        cs.subrange(0, cs.len() - 2).push((prev.0, prev.1 + "\n\n"@ + cs.last().1))
    } else {
        cs
    }
}

/// The chapters of a markdown document, as (title, body) pairs.
pub open spec fn split_chapters_spec(md: Seq<char>) -> Seq<(Seq<char>, Seq<char>)> {
    if is_blank(md) {
        seq![]
    } else {
        let ls = lines(md);
        let bs = chapter_boundaries(ls);
        if bs.len() == 0 {
            seq![("Document"@, trim(md))]
        } else {
            let cs = chunks_from(ls, bs, 0, "Introduction"@, 0);
            if cs.len() == 0 {
                seq![("Document"@, trim(md))]
            } else {
                merge_trailing(cs)
            }
        }
    }
}

/// Text that is not empty and neither starts nor ends with white space.
pub open spec fn trimmed_text(s: Seq<char>) -> bool {
    s.len() > 0 && !is_ws(s[0]) && !is_ws(s.last())
}

proof fn lemma_trim_nonempty_is_trimmed(s: Seq<char>)
    requires
        trim(s).len() > 0,
    ensures
        trimmed_text(trim(s)),
{
    lemma_trim_class_shape(s, CharClass::Space);
}

proof fn lemma_chunks_trimmed(
    lines: Seq<Seq<char>>,
    bs: Seq<(int, u8, Seq<char>)>,
    k: int,
    title: Seq<char>,
    cursor: int,
)
    ensures
        forall|i: int| 0 <= i < chunks_from(lines, bs, k, title, cursor).len()
            ==> trimmed_text(#[trigger] chunks_from(lines, bs, k, title, cursor)[i].1),
    decreases bs.len() - k,
{
    let r = chunks_from(lines, bs, k, title, cursor);
    if k < 0 || k >= bs.len() {
        if cursor < lines.len() && chunk_text(lines, cursor, lines.len() as int).len() > 0 {
            lemma_trim_nonempty_is_trimmed(join(lines.subrange(cursor, lines.len() as int), "\n"@));
        }
    } else {
        let b = bs[k];
        lemma_chunks_trimmed(lines, bs, k + 1, b.2, b.0);
        let rest = chunks_from(lines, bs, k + 1, b.2, b.0);
        if b.0 > cursor && chunk_text(lines, cursor, b.0).len() > 0 {
            lemma_trim_nonempty_is_trimmed(join(lines.subrange(cursor, b.0), "\n"@));
            assert forall|i: int| 0 <= i < r.len() implies trimmed_text(#[trigger] r[i].1) by {
                if i > 0 {
                    assert(r[i] == rest[i - 1]);
                }
            }
        } else {
            assert(r =~= rest);
        }
    }
}

/// Chapterization keeps readable text: a document yields no chapters exactly when
/// it is blank, and every chapter it yields has a body that is not empty and
/// neither starts nor ends with white space.
pub proof fn lemma_split_chapters_nonblank(md: Seq<char>)
    ensures
        split_chapters_spec(md).len() == 0 <==> is_blank(md),
        forall|i: int| 0 <= i < split_chapters_spec(md).len()
            ==> trimmed_text(#[trigger] split_chapters_spec(md)[i].1),
{
    let r = split_chapters_spec(md);
    if !is_blank(md) {
        lemma_trim_nonempty_is_trimmed(md);
        let ls = lines(md);
        let bs = chapter_boundaries(ls);
        if bs.len() > 0 {
            let cs = chunks_from(ls, bs, 0, "Introduction"@, 0);
            lemma_chunks_trimmed(ls, bs, 0, "Introduction"@, 0);
            if cs.len() >= 3 && cs.last().1.len() < 400 {
                let (p, l) = (cs[cs.len() - 2].1, cs.last().1);
                assert(trimmed_text(p) && trimmed_text(l));
                let merged = p + "\n\n"@ + l;
                assert(merged[0] == p[0]);
                assert(merged.last() == l.last());
                assert forall|i: int| 0 <= i < r.len() implies trimmed_text(#[trigger] r[i].1) by {
                    if i < cs.len() - 2 {
                        assert(r[i] == cs[i]);
                    } else {
                        assert(r[i].1 == merged);
                    }
                }
            }
        }
    }
}

pub open spec fn pairs_view(v: Seq<(Vec<char>, Vec<char>)>) -> Seq<(Seq<char>, Seq<char>)> {
    v.map_values(|p: (Vec<char>, Vec<char>)| (p.0@, p.1@))
}

proof fn lemma_boundaries_increasing(ls: Seq<Seq<char>>)
    ensures
        increasing_within(chapter_boundaries(ls), 0, ls.len() as int),
{
    lemma_heading_candidates_increasing(ls, 0);
    let hc = heading_candidates(ls);
    lemma_only_level_increasing(hc, 1, 0, ls.len() as int);
    lemma_only_level_increasing(hc, 2, 0, ls.len() as int);
    lemma_chapter_lines_increasing(ls, ls.len() as int);
}

fn chunk_exec(lines: &Vec<Vec<char>>, a: usize, b: usize) -> (r: Vec<char>)
    requires
        a <= b <= lines.len(),
    ensures
        r@ == chunk_text(lines.deep_view(), a as int, b as int),
{
    let nl = chars_of("\n");
    let joined = join_range(lines, a, b, &nl);
    trim_exec(&joined)
}

#[verifier::spinoff_prover]
#[verifier::rlimit(40)]
fn split_chapters_chars(md: &Vec<char>) -> (r: Vec<(Vec<char>, Vec<char>)>)
    ensures
        pairs_view(r@) == split_chapters_spec(md@),
{
    if is_blank_exec(md) {
        let e: Vec<(Vec<char>, Vec<char>)> = Vec::new();
        assert(pairs_view(e@) =~= seq![]);
        return e;
    }
    let lines = lines_exec(md);
    let ghost ls = lines.deep_view();
    let candidates = collect_heading_candidates(&lines);
    let mut boundaries = choose_split_boundaries(&candidates);
    if boundaries.len() == 0 {
        boundaries = collect_chapter_line_boundaries(&lines);
    }
    let ghost bs = boundaries_view(boundaries@);
    assert(bs == chapter_boundaries(ls));
    proof {
        lemma_boundaries_increasing(ls);
    }
    if boundaries.len() == 0 {
        let mut e: Vec<(Vec<char>, Vec<char>)> = Vec::new();
        e.push((chars_of("Document"), trim_exec(md)));
        assert(pairs_view(e@) =~= seq![("Document"@, trim(md@))]);
        return e;
    }
    let mut chapters: Vec<(Vec<char>, Vec<char>)> = Vec::new();
    let mut current_title = chars_of("Introduction");
    let mut cursor: usize = 0;
    let mut k: usize = 0;
    while k < boundaries.len()
        invariant
            k <= boundaries.len(),
            bs == boundaries_view(boundaries@),
            ls == lines.deep_view(),
            increasing_within(bs, 0, ls.len() as int),
            cursor <= ls.len(),
            k > 0 ==> cursor == bs[k - 1].0,
            pairs_view(chapters@) + chunks_from(ls, bs, k as int, current_title@, cursor as int)
                == chunks_from(ls, bs, 0, "Introduction"@, 0),
        decreases boundaries.len() - k,
    {
        let start = boundaries[k].start_line;
        assert(bs[k as int].0 == start as int);
        let ghost old_c = pairs_view(chapters@);
        if start > cursor {
            let chunk = chunk_exec(&lines, cursor, start);
            if chunk.len() > 0 {
                chapters.push((current_title, chunk));
                assert(pairs_view(chapters@) =~= old_c + seq![(current_title@, chunk@)]);
            }
        }
        current_title = boundaries[k].title.clone();
        cursor = start;
        k += 1;
    }
    if cursor < lines.len() {
        let chunk = chunk_exec(&lines, cursor, lines.len());
        if chunk.len() > 0 {
            let ghost old_c = pairs_view(chapters@);
            chapters.push((current_title, chunk));
            assert(pairs_view(chapters@) =~= old_c + seq![(current_title@, chunk@)]);
        }
    }
    assert(pairs_view(chapters@) =~= chunks_from(ls, bs, 0, "Introduction"@, 0));
    if chapters.len() == 0 {
        let mut e: Vec<(Vec<char>, Vec<char>)> = Vec::new();
        e.push((chars_of("Document"), trim_exec(md)));
        assert(pairs_view(e@) =~= seq![("Document"@, trim(md@))]);
        return e;
    }
    let n = chapters.len();
    if n >= 3 && chapters[n - 1].1.len() < 400 {
        let ghost cs = pairs_view(chapters@);
        let last = chapters.pop().unwrap();
        let prev = chapters.pop().unwrap();
        let mut body = prev.1;
        let sep = chars_of("\n\n");
        crate::text::extend_chars(&mut body, &sep);
        crate::text::extend_chars(&mut body, &last.1);
        chapters.push((prev.0, body));
        assert(pairs_view(chapters@) =~= merge_trailing(cs));
    }
    chapters
}

/// Splits markdown into (title, body) chapters: at level-1 headings, else at level-2
/// headings when there are at least two, else at chapter-style lines; a short
/// trailing chapter is folded into the one before.
pub fn split_into_chapters(markdown: &str) -> (r: Vec<(String, String)>)
    ensures
        r@.map_values(|p: (String, String)| (p.0@, p.1@)) == split_chapters_spec(markdown@),
{
    let md = chars_of(markdown);
    let cs = split_chapters_chars(&md);
    let mut r: Vec<(String, String)> = Vec::new();
    let mut i: usize = 0;
    while i < cs.len()
        invariant
            i <= cs.len(),
            r.len() == i,
            forall|k: int| 0 <= k < i ==> (#[trigger] r@[k]).0@ == cs@[k].0@ && r@[k].1@ == cs@[k].1@,
        decreases cs.len() - i,
    {
        r.push((string_of(&cs[i].0), string_of(&cs[i].1)));
        i += 1;
    }
    assert(r@.map_values(|p: (String, String)| (p.0@, p.1@)) =~= pairs_view(cs@));
    r
}

/// A trailing chapter of 400 characters or more stays a chapter of its own:
/// when the text cut at its boundaries gives three or more non-blank chunks
/// and the last has at least 400 characters, the chapters are exactly those
/// chunks. A shorter last chunk is appended, after a blank line, to the chunk
/// before it, which keeps its title; the chunks before stay as they are. With
/// fewer than three chunks nothing is folded.
pub proof fn lemma_trailing_chapter_folding(md: Seq<char>)
    ensures
        ({
            let ls = lines(md);
            let bs = chapter_boundaries(ls);
            let cs = chunks_from(ls, bs, 0, "Introduction"@, 0);
            !is_blank(md) && bs.len() > 0 && 0 < cs.len() < 3 ==> split_chapters_spec(md) == cs
        }),
        ({
            let ls = lines(md);
            let bs = chapter_boundaries(ls);
            let cs = chunks_from(ls, bs, 0, "Introduction"@, 0);
            let r = split_chapters_spec(md);
            !is_blank(md) && bs.len() > 0 && cs.len() >= 3 ==> {
                &&& cs.last().1.len() >= 400 ==> r == cs
                &&& cs.last().1.len() < 400 ==> {
                    &&& r.len() == cs.len() - 1
                    &&& forall|i: int| 0 <= i < cs.len() - 2 ==> #[trigger] r[i] == cs[i]
                    &&& r.last() == (cs[cs.len() - 2].0, cs[cs.len() - 2].1 + "\n\n"@ + cs.last().1)
                }
            }
        }),
{
    let ls = lines(md);
    let bs = chapter_boundaries(ls);
    let cs = chunks_from(ls, bs, 0, "Introduction"@, 0);
    if !is_blank(md) && bs.len() > 0 && cs.len() >= 3 && cs.last().1.len() < 400 {
        let r = split_chapters_spec(md);
        assert forall|i: int| 0 <= i < cs.len() - 2 implies #[trigger] r[i] == cs[i] by {}
    }
}

// ---------------------------------------------------------------------------
// Slugs and asset names.
// ---------------------------------------------------------------------------

pub open spec fn slug_char(c: char) -> char {
    if is_ascii_alnum(c) {
        lower_char(c)
    } else {
        '-'
    }
}

/// Runs of `-` collapsed to a single `-`.
pub open spec fn collapse_dashes(s: Seq<char>) -> Seq<char>
    decreases s.len(),
{
    if s.len() == 0 {
        s
    } else {
        let r = collapse_dashes(s.drop_last());
        if s.last() == '-' && r.len() > 0 && r.last() == '-' {
            r
        } else {
            r.push(s.last())
        }
    }
}

/// A slug: ASCII letters and digits lowercased, everything else a single `-`
/// between words, no `-` at either end, and `chapter` when nothing is left.
pub open spec fn slugify_spec(s: Seq<char>) -> Seq<char> {
    let t = trim_class(collapse_dashes(s.map_values(|c: char| slug_char(c))), CharClass::Exactly('-'));
    if t.len() == 0 {
        "chapter"@
    } else {
        t
    }
}

fn collapse_dashes_exec(v: &[char]) -> (r: Vec<char>)
    ensures
        r@ == collapse_dashes(v@),
{
    let mut r: Vec<char> = Vec::new();
    let mut i: usize = 0;
    while i < v.len()
        invariant
            i <= v.len(),
            r@ == collapse_dashes(v@.take(i as int)),
        decreases v.len() - i,
    {
        assert(v@.take(i as int + 1).drop_last() == v@.take(i as int));
        if !(v[i] == '-' && r.len() > 0 && r[r.len() - 1] == '-') {
            r.push(v[i]);
        }
        i += 1;
    }
    assert(v@.take(v.len() as int) == v@);
    r
}

pub fn slugify(value: &str) -> (r: String)
    ensures
        r@ == slugify_spec(value@),
{
    let v = chars_of(value);
    let mut mapped: Vec<char> = Vec::new();
    let mut i: usize = 0;
    while i < v.len()
        invariant
            i <= v.len(),
            mapped@ == v@.take(i as int).map_values(|c: char| slug_char(c)),
        decreases v.len() - i,
    {
        let c = v[i];
        let m = if is_ascii_alnum_exec(c) {
            lower_char_exec(c)
        } else {
            '-'
        };
        mapped.push(m);
        assert(mapped@ =~= v@.take(i as int + 1).map_values(|c: char| slug_char(c)));
        i += 1;
    }
    assert(v@.take(v.len() as int) == v@);
    let collapsed = collapse_dashes_exec(&mapped);
    let t = trim_class_exec(&collapsed, CharClass::Exactly('-'));
    if t.len() == 0 {
        String::from_str("chapter")
    } else {
        string_of(&t)
    }
}

pub open spec fn is_slug_char(c: char) -> bool {
    is_ascii_alnum(c) && !('A' <= c && c <= 'Z') || c == '-'
}

proof fn lemma_collapse_dashes_props(s: Seq<char>)
    requires
        forall|k: int| 0 <= k < s.len() ==> is_slug_char(#[trigger] s[k]),
    ensures
        forall|k: int| 0 <= k < collapse_dashes(s).len() ==> is_slug_char(
            #[trigger] collapse_dashes(s)[k],
        ),
        forall|k: int|
            0 <= k < collapse_dashes(s).len() - 1 ==> !(#[trigger] collapse_dashes(s)[k] == '-'
                && collapse_dashes(s)[k + 1] == '-'),
    decreases s.len(),
{
    if s.len() > 0 {
        let d = s.drop_last();
        assert forall|k: int| 0 <= k < d.len() implies is_slug_char(#[trigger] d[k]) by {
            assert(d[k] == s[k]);
        }
        lemma_collapse_dashes_props(d);
        let r = collapse_dashes(d);
        assert(is_slug_char(s[s.len() - 1]));
        if !(s.last() == '-' && r.len() > 0 && r.last() == '-') {
            let r2 = r.push(s.last());
            assert forall|k: int| 0 <= k < r2.len() - 1 implies !(#[trigger] r2[k] == '-' && r2[k
                + 1] == '-') by {
                if k < r.len() - 1 {
                    assert(r2[k] == r[k] && r2[k + 1] == r[k + 1]);
                }
            }
        }
    }
}

/// A slug is never empty, holds only lowercase ASCII letters, digits and `-`,
/// never two `-` in a row, and no `-` at either end.
pub proof fn lemma_slug_shape(s: Seq<char>)
    ensures
        slugify_spec(s).len() > 0,
        forall|k: int| 0 <= k < slugify_spec(s).len() ==> is_slug_char(#[trigger] slugify_spec(s)[k]),
        forall|k: int|
            0 <= k < slugify_spec(s).len() - 1 ==> !(#[trigger] slugify_spec(s)[k] == '-'
                && slugify_spec(s)[k + 1] == '-'),
        slugify_spec(s)[0] != '-',
        slugify_spec(s).last() != '-',
{
    reveal_strlit("chapter");
    let m = s.map_values(|c: char| slug_char(c));
    assert forall|k: int| 0 <= k < m.len() implies is_slug_char(#[trigger] m[k]) by {
        let c = s[k];
        if is_ascii_alnum(c) && 'A' <= c && c <= 'Z' {
            assert(lower_char(c) == ((c as u32) + 32) as char);
        }
    }
    lemma_collapse_dashes_props(m);
    let c = collapse_dashes(m);
    lemma_trim_class_shape(c, CharClass::Exactly('-'));
    let t = trim_class(c, CharClass::Exactly('-'));
    if t.len() > 0 {
        let (i, j) = choose|i: int, j: int| 0 <= i <= j <= c.len() && t == c.subrange(i, j);
        assert forall|k: int| 0 <= k < t.len() implies is_slug_char(#[trigger] t[k]) by {
            assert(t[k] == c[i + k]);
        }
        assert forall|k: int| 0 <= k < t.len() - 1 implies !(#[trigger] t[k] == '-' && t[k + 1]
            == '-') by {
            assert(t[k] == c[i + k] && t[k + 1] == c[i + k + 1]);
        }
    }
}

proof fn lemma_collapse_keeps_single_dashes(s: Seq<char>)
    requires
        forall|k: int| 0 <= k < s.len() - 1 ==> !(#[trigger] s[k] == '-' && s[k + 1] == '-'),
    ensures
        collapse_dashes(s) == s,
    decreases s.len(),
{
    if s.len() > 0 {
        let d = s.drop_last();
        assert forall|k: int| 0 <= k < d.len() - 1 implies !(#[trigger] d[k] == '-' && d[k + 1] == '-') by {
            assert(d[k] == s[k] && d[k + 1] == s[k + 1]);
        }
        lemma_collapse_keeps_single_dashes(d);
        if s.len() > 1 {
            assert(d.last() == s[s.len() - 2]);
        }
        assert(d.push(s.last()) =~= s);
    }
}

proof fn lemma_collapse_all_dashes(s: Seq<char>)
    requires
        forall|k: int| 0 <= k < s.len() ==> #[trigger] s[k] == '-',
    ensures
        forall|k: int| 0 <= k < collapse_dashes(s).len() ==> #[trigger] collapse_dashes(s)[k] == '-',
    decreases s.len(),
{
    if s.len() > 0 {
        let d = s.drop_last();
        assert forall|k: int| 0 <= k < d.len() implies #[trigger] d[k] == '-' by {
            assert(d[k] == s[k]);
        }
        lemma_collapse_all_dashes(d);
        let r = collapse_dashes(d);
        assert(s.last() == '-');
        assert forall|k: int| 0 <= k < r.push(s.last()).len() implies #[trigger] r.push(s.last())[k] == '-' by {
            if k < r.len() {
                assert(r.push(s.last())[k] == r[k]);
            }
        }
    }
}

proof fn lemma_trim_all_in_class(s: Seq<char>, cls: CharClass)
    requires
        forall|k: int| 0 <= k < s.len() ==> in_class(cls, #[trigger] s[k]),
    ensures
        trim_class(s, cls).len() == 0,
    decreases s.len(),
{
    if s.len() > 0 {
        let d = s.drop_first();
        assert forall|k: int| 0 <= k < d.len() implies in_class(cls, #[trigger] d[k]) by {
            assert(d[k] == s[k + 1]);
        }
        lemma_trim_all_in_class(d, cls);
        assert(in_class(cls, s[0]));
        assert(trim_start_class(s, cls) == trim_start_class(d, cls));
    }
}

/// A title without ASCII letters or digits gets the slug `chapter`.
pub proof fn lemma_slug_fallback(s: Seq<char>)
    requires
        forall|k: int| 0 <= k < s.len() ==> !is_ascii_alnum(#[trigger] s[k]),
    ensures
        slugify_spec(s) == "chapter"@,
{
    let m = s.map_values(|c: char| slug_char(c));
    assert forall|k: int| 0 <= k < m.len() implies #[trigger] m[k] == '-' by {
        assert(!is_ascii_alnum(s[k]));
    }
    lemma_collapse_all_dashes(m);
    let c = collapse_dashes(m);
    assert forall|k: int| 0 <= k < c.len() implies in_class(CharClass::Exactly('-'), #[trigger] c[k]) by {
        assert(c[k] == '-');
    }
    lemma_trim_all_in_class(c, CharClass::Exactly('-'));
}

/// Slugifying a slug gives it back.
pub proof fn lemma_slug_idempotent(s: Seq<char>)
    ensures
        slugify_spec(slugify_spec(s)) == slugify_spec(s),
{
    lemma_slug_shape(s);
    let r = slugify_spec(s);
    let m = r.map_values(|c: char| slug_char(c));
    assert forall|k: int| 0 <= k < r.len() implies #[trigger] m[k] == r[k] by {
        assert(is_slug_char(r[k]));
    }
    assert(m =~= r);
    lemma_collapse_keeps_single_dashes(r);
    assert(trim_start_class(r, CharClass::Exactly('-')) == r);
    assert(trim_end_class(r, CharClass::Exactly('-')) == r);
}

pub open spec fn asset_char(c: char) -> char {
    if is_ascii_alnum(c) || c == '-' || c == '_' || c == '.' {
        c
    } else {
        '-'
    }
}

/// A safe asset file name: unsafe characters become `-`, no `-` at either end,
/// `.bin` added when there is no extension, `image.bin` when nothing is left.
pub open spec fn sanitize_asset_name_spec(s: Seq<char>) -> Seq<char> {
    let t = trim_class(s.map_values(|c: char| asset_char(c)), CharClass::Exactly('-'));
    if t.len() == 0 {
        "image.bin"@
    } else if t.contains('.') {
        t
    } else {
        t + ".bin"@
    }
}

pub fn sanitize_asset_name(input: &[char]) -> (r: Vec<char>)
    ensures
        r@ == sanitize_asset_name_spec(input@),
{
    let mut mapped: Vec<char> = Vec::new();
    let mut i: usize = 0;
    while i < input.len()
        invariant
            i <= input.len(),
            mapped@ == input@.take(i as int).map_values(|c: char| asset_char(c)),
        decreases input.len() - i,
    {
        let c = input[i];
        let m = if is_ascii_alnum_exec(c) || c == '-' || c == '_' || c == '.' {
            c
        } else {
            '-'
        };
        mapped.push(m);
        assert(mapped@ =~= input@.take(i as int + 1).map_values(|c: char| asset_char(c)));
        i += 1;
    }
    assert(input@.take(input.len() as int) == input@);
    let mut t = trim_class_exec(&mapped, CharClass::Exactly('-'));
    if t.len() == 0 {
        return chars_of("image.bin");
    }
    if crate::text::contains_char_exec(&t, '.') {
        t
    } else {
        extend_str(&mut t, ".bin");
        t
    }
}

/// The stem of a sanitized name: before its last `.`, or `image`.
pub open spec fn asset_stem(s: Seq<char>) -> Seq<char> {
    let d = last_index_of(s, '.');
    if d >= 0 {
        s.subrange(0, d)
    } else {
        "image"@
    }
}

/// The extension of a sanitized name: after its last `.`, or `bin`.
pub open spec fn asset_ext(s: Seq<char>) -> Seq<char> {
    let d = last_index_of(s, '.');
    if d >= 0 {
        s.subrange(d + 1, s.len() as int)
    } else {
        "bin"@
    }
}

/// The `k`-th name tried when the sanitized id is taken:
/// `{stem}-p{page:04}-{index:02}.{ext}` first, then with `-1`, `-2`, ... before
/// the extension.
pub open spec fn fallback_name(s: Seq<char>, page: nat, index: nat, k: nat) -> Seq<char> {
    asset_stem(s) + "-p"@ + zero_padded(page, 4) + "-"@ + zero_padded(index, 2) + (if k == 0 {
        Seq::<char>::empty()
    } else {
        "-"@ + decimal(k)
    }) + "."@ + asset_ext(s)
}

/// The first fallback name from the `k`-th on that `used` does not hold.
pub open spec fn first_free_name(s: Seq<char>, page: nat, index: nat, used: Seq<Seq<char>>, k: nat) -> Seq<char>
    decreases used.len() + 1 - k,
{
    if k > used.len() || !used.contains(fallback_name(s, page, index, k)) {
        fallback_name(s, page, index, k)
    } else {
        first_free_name(s, page, index, used, k + 1)
    }
}

/// The file name for an OCR image: its sanitized id when that is still free,
/// else the first free fallback name.
pub open spec fn unique_asset_name_spec(id: Seq<char>, page: nat, index: nat, used: Seq<Seq<char>>) -> Seq<char> {
    let s = sanitize_asset_name_spec(id);
    if !used.contains(s) {
        s
    } else {
        first_free_name(s, page, index, used, 0)
    }
}

proof fn lemma_decimal_value(n: nat)
    ensures
        crate::comic_info::digits_value(decimal(n)) == n,
    decreases n,
{
    let d = decimal(n);
    let last = if n >= 10 { n % 10 } else { n };
    assert(d.last() == digit_char(last));
    assert(digit_char(last) as nat == 48 + last);
    assert('0' as nat == 48);
    assert(crate::comic_info::digits_value(d) == crate::comic_info::digits_value(d.drop_last()) * 10 + last);
    if n >= 10 {
        lemma_decimal_value(n / 10);
        assert(d.drop_last() == decimal(n / 10));
        assert((n / 10) * 10 + n % 10 == n) by (nonlinear_arith);
    } else {
        assert(d.drop_last() =~= Seq::<char>::empty());
    }
}

proof fn lemma_fallback_names_differ(s: Seq<char>, page: nat, index: nat, a: nat, b: nat)
    requires
        a != b,
    ensures
        fallback_name(s, page, index, a) != fallback_name(s, page, index, b),
{
    reveal_strlit("-");
    reveal_strlit(".");
    let p = asset_stem(s) + "-p"@ + zero_padded(page, 4) + "-"@ + zero_padded(index, 2);
    let t = "."@ + asset_ext(s);
    let mid = |k: nat| if k == 0 { Seq::<char>::empty() } else { "-"@ + decimal(k) };
    assert(fallback_name(s, page, index, a) =~= p + mid(a) + t);
    assert(fallback_name(s, page, index, b) =~= p + mid(b) + t);
    if fallback_name(s, page, index, a) == fallback_name(s, page, index, b) {
        let x = p + mid(a) + t;
        let y = p + mid(b) + t;
        assert(mid(a).len() == mid(b).len());
        assert(mid(a) =~= x.subrange(p.len() as int, (p.len() + mid(a).len()) as int));
        assert(mid(b) =~= y.subrange(p.len() as int, (p.len() + mid(b).len()) as int));
        if a != 0 && b != 0 {
            assert(decimal(a) =~= mid(a).drop_first());
            assert(decimal(b) =~= mid(b).drop_first());
            lemma_decimal_value(a);
            lemma_decimal_value(b);
        } else {
            assert(decimal(a).len() >= 1);
            assert(decimal(b).len() >= 1);
        }
    }
}

/// Among the first `used.len() + 1` fallback names one is free.
proof fn lemma_some_fallback_free(s: Seq<char>, page: nat, index: nat, used: Seq<Seq<char>>)
    ensures
        exists|k: nat| k <= used.len() && !used.contains(#[trigger] fallback_name(s, page, index, k)),
{
    let cands = Seq::new(used.len() + 1, |k: int| fallback_name(s, page, index, k as nat));
    assert forall|i: int, j: int| 0 <= i < cands.len() && 0 <= j < cands.len() && i != j implies cands[i] != cands[j] by {
        lemma_fallback_names_differ(s, page, index, i as nat, j as nat);
    }
    assert(cands.no_duplicates());
    cands.unique_seq_to_set();
    used.lemma_cardinality_of_set();
    if forall|k: nat| k <= used.len() ==> used.contains(#[trigger] fallback_name(s, page, index, k)) {
        assert(cands.to_set().subset_of(used.to_set())) by {
            assert forall|x: Seq<char>| cands.to_set().contains(x) implies used.to_set().contains(x) by {
                let i = choose|i: int| 0 <= i < cands.len() && cands[i] == x;
                assert(used.contains(fallback_name(s, page, index, i as nat)));
            }
        }
        vstd::set_lib::lemma_len_subset(cands.to_set(), used.to_set());
    }
}

proof fn lemma_first_free_from(s: Seq<char>, page: nat, index: nat, used: Seq<Seq<char>>, j: nat, k: nat)
    requires
        j <= k <= used.len(),
        forall|m: nat| j <= m < k ==> used.contains(#[trigger] fallback_name(s, page, index, m)),
        !used.contains(fallback_name(s, page, index, k)),
    ensures
        first_free_name(s, page, index, used, j) == fallback_name(s, page, index, k),
    decreases k - j,
{
    if j < k {
        assert(used.contains(fallback_name(s, page, index, j)));
        lemma_first_free_from(s, page, index, used, j + 1, k);
    }
}

proof fn lemma_first_free_name(s: Seq<char>, page: nat, index: nat, used: Seq<Seq<char>>, k: nat)
    requires
        k <= used.len() + 1,
        forall|j: nat| j < k ==> used.contains(#[trigger] fallback_name(s, page, index, j)),
    ensures
        !used.contains(first_free_name(s, page, index, used, k)),
    decreases used.len() + 1 - k,
{
    if k > used.len() {
        lemma_some_fallback_free(s, page, index, used);
        let w = choose|w: nat| w <= used.len() && !used.contains(#[trigger] fallback_name(s, page, index, w));
        assert(w < k);
    } else if used.contains(fallback_name(s, page, index, k)) {
        lemma_first_free_name(s, page, index, used, k + 1);
    }
}

fn seqs_contain(used: &Vec<Vec<char>>, s: &Vec<char>) -> (r: bool)
    ensures
        r == used.deep_view().contains(s@),
{
    broadcast use lemma_deep_view_chars;

    let mut i: usize = 0;
    while i < used.len()
        invariant
            i <= used.len(),
            forall|k: int| 0 <= k < i ==> used.deep_view()[k] != s@,
        decreases used.len() - i,
    {
        let ghost e = used@[i as int];
        assert(used.deep_view()[i as int] == e.deep_view());
        assert(e.deep_view() == e@);
        if crate::text::chars_eq(&used[i], s) {
            assert(used.deep_view()[i as int] == s@);
            return true;
        }
        assert(used.deep_view()[i as int] != s@);
        i += 1;
    }
    false
}

/// Records `s` in `used` unless it is already there.
fn insert_seq(used: &mut Vec<Vec<char>>, s: &Vec<char>)
    ensures
        final(used).deep_view() == (if old(used).deep_view().contains(s@) {
            old(used).deep_view()
        } else {
            old(used).deep_view().push(s@)
        }),
{
    broadcast use lemma_deep_view_chars;

    if !seqs_contain(used, s) {
        let ghost old_u = used.deep_view();
        used.push(s.clone());
        assert(used.deep_view() =~= old_u.push(s@));
    }
}

pub fn unique_asset_name(
    original_id: &[char],
    page_index: usize,
    index_in_page: usize,
    used: &mut Vec<Vec<char>>,
) -> (r: Vec<char>)
    ensures
        r@ == unique_asset_name_spec(
            original_id@,
            page_index as nat,
            index_in_page as nat,
            old(used).deep_view(),
        ),
        !old(used).deep_view().contains(r@),
        final(used).deep_view() == old(used).deep_view().push(r@),
{
    let sanitized = sanitize_asset_name(original_id);
    if !seqs_contain(used, &sanitized) {
        insert_seq(used, &sanitized);
        return sanitized;
    }
    let ghost s = sanitized@;
    let ghost u = used.deep_view();
    let d = last_index_of_exec(&sanitized, '.');
    let (mut prefix, ext) = match d {
        Some(k) => {
            proof {
                crate::text::lemma_last_index_of(sanitized@, '.');
            }
            assert(k < sanitized.len());
            (sub_chars(&sanitized, 0, k), sub_chars(&sanitized, k + 1, sanitized.len()))
        },
        None => (chars_of("image"), chars_of("bin")),
    };
    assert(prefix@ == asset_stem(s) && ext@ == asset_ext(s));
    extend_str(&mut prefix, "-p");
    let p = zero_padded_exec(page_index as u64, 4);
    extend_chars(&mut prefix, &p);
    extend_str(&mut prefix, "-");
    let q = zero_padded_exec(index_in_page as u64, 2);
    extend_chars(&mut prefix, &q);
    let ghost pv = prefix@;
    let mut k: usize = 0;
    let mut candidate = prefix.clone();
    extend_str(&mut candidate, ".");
    extend_chars(&mut candidate, &ext);
    proof {
        reveal_strlit("");
        assert(candidate@ =~= fallback_name(s, page_index as nat, index_in_page as nat, 0));
    }
    while seqs_contain(used, &candidate)
        invariant
            used.deep_view() == u,
            u.len() == used.len(),
            prefix@ == pv,
            pv == asset_stem(s) + "-p"@ + zero_padded(page_index as nat, 4) + "-"@ + zero_padded(index_in_page as nat, 2),
            ext@ == asset_ext(s),
            k <= u.len(),
            candidate@ == fallback_name(s, page_index as nat, index_in_page as nat, k as nat),
            forall|j: nat| j < k ==> u.contains(#[trigger] fallback_name(s, page_index as nat, index_in_page as nat, j)),
        decreases u.len() - k,
    {
        assert(k < u.len()) by {
            assert(u.contains(fallback_name(s, page_index as nat, index_in_page as nat, k as nat)));
            lemma_some_fallback_free(s, page_index as nat, index_in_page as nat, u);
            let w = choose|w: nat| w <= u.len() && !u.contains(#[trigger] fallback_name(s, page_index as nat, index_in_page as nat, w));
            if w < k {
                assert(u.contains(fallback_name(s, page_index as nat, index_in_page as nat, w)));
            }
        }
        k = k + 1;
        candidate = prefix.clone();
        extend_str(&mut candidate, "-");
        let n = decimal_exec(k as u64);
        extend_chars(&mut candidate, &n);
        extend_str(&mut candidate, ".");
        extend_chars(&mut candidate, &ext);
        assert(candidate@ =~= fallback_name(s, page_index as nat, index_in_page as nat, k as nat));
    }
    proof {
        lemma_first_free_from(s, page_index as nat, index_in_page as nat, u, 0, k as nat);
    }
    let ghost old_u = used.deep_view();
    used.push(candidate.clone());
    proof {
        broadcast use lemma_deep_view_chars;
        assert(used.deep_view() =~= old_u.push(candidate@));
    }
    candidate
}

/// The media type of an image file, by its extension (ASCII case ignored).
pub open spec fn media_type_spec(name: Seq<char>) -> Seq<char> {
    let d = last_index_of(name, '.');
    if d < 0 {
        "application/octet-stream"@
    } else {
        let ext = ascii_lower(name.subrange(d + 1, name.len() as int));
        if ext == "jpg"@ || ext == "jpeg"@ {
            "image/jpeg"@
        } else if ext == "png"@ {
            "image/png"@
        } else if ext == "gif"@ {
            "image/gif"@
        } else if ext == "webp"@ {
            "image/webp"@
        } else if ext == "svg"@ {
            "image/svg+xml"@
        } else if ext == "bmp"@ {
            "image/bmp"@
        } else {
            "application/octet-stream"@
        }
    }
}

pub fn media_type_from_filename(filename: &[char]) -> (r: &'static str)
    ensures
        r@ == media_type_spec(filename@),
{
    match last_index_of_exec(filename, '.') {
        None => "application/octet-stream",
        Some(d) => {
            proof {
                crate::text::lemma_last_index_of(filename@, '.');
            }
            assert(d < filename.len());
            let raw = sub_chars(filename, d + 1, filename.len());
            let ext = ascii_lower_exec(&raw);
            if chars_eq_str(&ext, "jpg") || chars_eq_str(&ext, "jpeg") {
                "image/jpeg"
            } else if chars_eq_str(&ext, "png") {
                "image/png"
            } else if chars_eq_str(&ext, "gif") {
                "image/gif"
            } else if chars_eq_str(&ext, "webp") {
                "image/webp"
            } else if chars_eq_str(&ext, "svg") {
                "image/svg+xml"
            } else if chars_eq_str(&ext, "bmp") {
                "image/bmp"
            } else {
                "application/octet-stream"
            }
        },
    }
}


// ---------------------------------------------------------------------------
// Page cleanup.
// ---------------------------------------------------------------------------

/// Removes the page header when the page (after leading white space) starts with
/// it, together with the line feeds that follow it.
pub open spec fn strip_header_spec(md: Seq<char>, header: Option<Seq<char>>) -> Seq<char> {
    match header {
        Some(h) => {
            let ht = trim(h);
            let ts = trim_start(md);
            if ht.len() > 0 && starts_with(ts, ht) {
                trim_start_class(ts.subrange(ht.len() as int, ts.len() as int), CharClass::Exactly('\n'))
            } else {
                md
            }
        },
        None => md,
    }
}

/// Removes the page footer when the page (before trailing white space) ends with
/// it, together with the line feeds before it.
pub open spec fn strip_footer_spec(md: Seq<char>, footer: Option<Seq<char>>) -> Seq<char> {
    match footer {
        Some(f) => {
            let ft = trim(f);
            let te = trim_end(md);
            if ft.len() > 0 && ends_with(te, ft) {
                trim_end_class(te.subrange(0, te.len() - ft.len()), CharClass::Exactly('\n'))
            } else {
                md
            }
        },
        None => md,
    }
}

pub open spec fn strip_header_footer_spec(
    md: Seq<char>,
    header: Option<Seq<char>>,
    footer: Option<Seq<char>>,
) -> Seq<char> {
    strip_footer_spec(strip_header_spec(md, header), footer)
}


pub fn strip_header_footer(
    markdown: Vec<char>,
    header: Option<Vec<char>>,
    footer: Option<Vec<char>>,
) -> (r: Vec<char>)
    ensures
        r@ == strip_header_footer_spec(markdown@, opt_chars(header), opt_chars(footer)),
{
    let mut md = markdown;
    if let Some(h) = header {
        let ht = trim_exec(&h);
        let ts = trim_start_exec(&md);
        if ht.len() > 0 && starts_with_exec(&ts, &ht) {
            let rest = sub_chars(&ts, ht.len(), ts.len());
            md = trim_start_class_exec(&rest, CharClass::Exactly('\n'));
        }
    }
    if let Some(f) = footer {
        let ft = trim_exec(&f);
        let te = trim_end_exec(&md);
        if ft.len() > 0 && ends_with_exec(&te, &ft) {
            let rest = sub_chars(&te, 0, te.len() - ft.len());
            md = trim_end_class_exec(&rest, CharClass::Exactly('\n'));
        }
    }
    md
}

/// The XHTML document of a chapter.
pub open spec fn xhtml_document_spec(title: Seq<char>, language: Seq<char>, body: Seq<char>) -> Seq<char> {
    "<?xml version=\"1.0\" encoding=\"utf-8\"?>\n<!DOCTYPE html>\n<html xmlns=\"http://www.w3.org/1999/xhtml\" xml:lang=\""@ + xml_escape_spec(language) + "\">\n  <head>\n    <meta charset=\"utf-8\" />\n    <title>"@ + xml_escape_spec(title) + "</title>\n    <link rel=\"stylesheet\" type=\"text/css\" href=\"../styles/book.css\" />\n  </head>\n  <body class=\"chapter\">\n"@ + body
        + "\n  </body>\n</html>\n"@
}

pub fn wrap_xhtml_document(title: &[char], language: &[char], body_html: &[char]) -> (r: Vec<char>)
    ensures
        r@ == xhtml_document_spec(title@, language@, body_html@),
{
    let mut r = chars_of("<?xml version=\"1.0\" encoding=\"utf-8\"?>\n<!DOCTYPE html>\n<html xmlns=\"http://www.w3.org/1999/xhtml\" xml:lang=\"");
    let l = xml_escape_chars(language);
    extend_chars(&mut r, &l);
    extend_str(&mut r, "\">\n  <head>\n    <meta charset=\"utf-8\" />\n    <title>");
    let t = xml_escape_chars(title);
    extend_chars(&mut r, &t);
    extend_str(&mut r, "</title>\n    <link rel=\"stylesheet\" type=\"text/css\" href=\"../styles/book.css\" />\n  </head>\n  <body class=\"chapter\">\n");
    extend_chars(&mut r, body_html);
    extend_str(&mut r, "\n  </body>\n</html>\n");
    r
}

/// `](placeholder)` links rewritten to `](path)`, one image after another.
pub open spec fn replace_images_spec(md: Seq<char>, map: Seq<(Seq<char>, Seq<char>)>) -> Seq<char>
    decreases map.len(),
{
    if map.len() == 0 {
        md
    } else {
        replace_images_spec(
            replace_spec(md, "]("@ + map[0].0 + ")"@, "]("@ + map[0].1 + ")"@),
            map.drop_first(),
        )
    }
}

pub fn replace_image_placeholders(markdown: Vec<char>, image_map: &Vec<(Vec<char>, Vec<char>)>) -> (r: Vec<char>)
    ensures
        r@ == replace_images_spec(markdown@, pairs_view(image_map@)),
{
    let ghost mv = pairs_view(image_map@);
    let mut md = markdown;
    let mut i: usize = 0;
    assert(mv.subrange(0, mv.len() as int) == mv);
    proof {
        reveal_strlit("](");
    }
    while i < image_map.len()
        invariant
            i <= image_map.len(),
            mv == pairs_view(image_map@),
            replace_images_spec(markdown@, mv) == replace_images_spec(md@, mv.subrange(i as int, mv.len() as int)),
        decreases image_map.len() - i,
    {
        proof {
            reveal_strlit("](");
        }
        let mut pat = chars_of("](");
        extend_chars(&mut pat, &image_map[i].0);
        extend_str(&mut pat, ")");
        let mut rep = chars_of("](");
        extend_chars(&mut rep, &image_map[i].1);
        extend_str(&mut rep, ")");
        let ghost rest = mv.subrange(i as int, mv.len() as int);
        assert(rest[0] == mv[i as int]);
        assert(rest.drop_first() == mv.subrange(i + 1, mv.len() as int));
        md = replace_exec(&md, &pat, &rep);
        i += 1;
    }
    assert(mv.subrange(mv.len() as int, mv.len() as int) =~= Seq::<(Seq<char>, Seq<char>)>::empty());
    md
}

/// A markdown image `![alt](target)`.
pub open spec fn markdown_image_pattern() -> Seq<char> {
    "!\\[[^\\]]*\\]\\([^\\)]+\\)"@
}

/// Markdown image references removed (when the image pattern compiles).
pub open spec fn strip_images_spec(md: Seq<char>) -> Seq<char> {
    match regex_replaced(markdown_image_pattern(), md, ""@) {
        Some(r) => r,
        None => md,
    }
}

pub fn strip_markdown_images(markdown: Vec<char>) -> (r: Vec<char>)
    ensures
        r@ == strip_images_spec(markdown@),
{
    let text = string_of(&markdown);
    match regex_replace_all("!\\[[^\\]]*\\]\\([^\\)]+\\)", text.as_str(), "") {
        Some(r) => chars_of(r.as_str()),
        None => markdown,
    }
}

// ---------------------------------------------------------------------------
// Table placeholders.
// ---------------------------------------------------------------------------

/// The first string-valued extra field of a table with this name.
pub open spec fn extra_lookup(extra: Seq<(Seq<char>, Seq<char>)>, key: Seq<char>) -> Option<Seq<char>>
    decreases extra.len(),
{
    if extra.len() == 0 {
        None
    } else if extra[0].0 == key {
        Some(extra[0].1)
    } else {
        extra_lookup(extra.drop_first(), key)
    }
}

pub open spec fn extra_view(extra: Seq<(String, String)>) -> Seq<(Seq<char>, Seq<char>)> {
    extra.map_values(|p: (String, String)| (p.0@, p.1@))
}

fn extra_lookup_exec(extra: &Vec<(String, String)>, key: &str) -> (r: Option<String>)
    ensures
        opt_view(r) == extra_lookup(extra_view(extra@), key@),
{
    let ghost ev = extra_view(extra@);
    let mut i: usize = 0;
    assert(ev.subrange(0, ev.len() as int) == ev);
    while i < extra.len()
        invariant
            i <= extra.len(),
            ev == extra_view(extra@),
            extra_lookup(ev, key@) == extra_lookup(ev.subrange(i as int, ev.len() as int), key@),
        decreases extra.len() - i,
    {
        let ghost rest = ev.subrange(i as int, ev.len() as int);
        assert(rest[0] == ev[i as int]);
        assert(rest.drop_first() == ev.subrange(i + 1, ev.len() as int));
        let k = chars_of(extra[i].0.as_str());
        if chars_eq_str(&k, key) {
            return Some(extra[i].1.clone());
        }
        i += 1;
    }
    None
}

/// Adds a trimmed identifier unless it is blank or already present.
pub open spec fn push_unique_id(ids: Seq<Seq<char>>, value: Option<Seq<char>>) -> Seq<Seq<char>> {
    match value {
        Some(raw) => {
            let c = trim(raw);
            if c.len() == 0 || ids.contains(c) {
                ids
            } else {
                ids.push(c)
            }
        },
        None => ids,
    }
}

/// `tbl-{page}-{index}.html`.
pub open spec fn fallback_table_id(page: nat, index: nat) -> Seq<char> {
    "tbl-"@ + decimal(page) + "-"@ + decimal(index) + ".html"@
}

/// The names a table placeholder may carry in the markdown: its id, the
/// `table_id`, `id`, `file_name`, `path` and `placeholder` fields, and the
/// fallback `tbl-{page}-{index}.html`, each once.
pub open spec fn table_identifiers_spec(t: OcrTable, page: nat, index: nat) -> Seq<Seq<char>> {
    let e = extra_view(t.extra@);
    let a = push_unique_id(seq![], opt_view(t.id));
    let b = push_unique_id(a, extra_lookup(e, "table_id"@));
    let c = push_unique_id(b, extra_lookup(e, "id"@));
    let d = push_unique_id(c, extra_lookup(e, "file_name"@));
    let f = push_unique_id(d, extra_lookup(e, "path"@));
    let g = push_unique_id(f, extra_lookup(e, "placeholder"@));
    if g.contains(fallback_table_id(page, index)) {
        g
    } else {
        g.push(fallback_table_id(page, index))
    }
}

fn push_unique_id_exec(ids: &mut Vec<Vec<char>>, value: Option<String>)
    ensures
        final(ids).deep_view() == push_unique_id(old(ids).deep_view(), opt_view(value)),
{
    if let Some(raw) = value {
        let rv = chars_of(raw.as_str());
        let c = trim_exec(&rv);
        if c.len() > 0 && !seqs_contain(ids, &c) {
            insert_seq(ids, &c);
        }
    }
}

pub fn collect_table_identifiers(table: &OcrTable, page_index: usize, index: usize) -> (r: Vec<Vec<char>>)
    ensures
        r.deep_view() == table_identifiers_spec(*table, page_index as nat, index as nat),
{
    let mut ids: Vec<Vec<char>> = Vec::new();
    assert(ids.deep_view() =~= Seq::<Seq<char>>::empty());
    push_unique_id_exec(&mut ids, clone_opt(&table.id));
    push_unique_id_exec(&mut ids, extra_lookup_exec(&table.extra, "table_id"));
    push_unique_id_exec(&mut ids, extra_lookup_exec(&table.extra, "id"));
    push_unique_id_exec(&mut ids, extra_lookup_exec(&table.extra, "file_name"));
    push_unique_id_exec(&mut ids, extra_lookup_exec(&table.extra, "path"));
    push_unique_id_exec(&mut ids, extra_lookup_exec(&table.extra, "placeholder"));
    let mut fallback = chars_of("tbl-");
    let p = decimal_exec(page_index as u64);
    extend_chars(&mut fallback, &p);
    extend_str(&mut fallback, "-");
    let q = decimal_exec(index as u64);
    extend_chars(&mut fallback, &q);
    extend_str(&mut fallback, ".html");
    insert_seq(&mut ids, &fallback);
    ids
}

/// One placeholder pattern applied, when it compiles.
pub open spec fn apply_pattern(md: Seq<char>, pattern: Seq<char>, rep: Seq<char>) -> Seq<char> {
    match regex_replaced(pattern, md, rep) {
        Some(r) => r,
        None => md,
    }
}

/// The four placeholder shapes that name a table: a markdown link or image to it
/// (optionally `./`-prefixed, with a fragment or title), `<id>`, a line holding
/// only `[id]`, and a line holding only the id.
pub open spec fn table_patterns(escaped: Seq<char>) -> Seq<Seq<char>> {
    seq![
        "!?\\[[^\\]]*\\]\\(\\s*(?:\\./)?"@ + escaped + "(?:#[^\\s\\)\"']+)?(?:\\s+(?:\"[^\"]*\"|'[^']*'))?\\s*\\)"@,
        "<\\s*(?:\\./)?"@ + escaped + "\\s*>"@,
        "(?m)^\\s*\\[\\s*(?:\\./)?"@ + escaped + "\\s*\\]\\s*$"@,
        "(?m)^\\s*(?:\\./)?"@ + escaped + "\\s*$"@,
    ]
}

/// Every placeholder of the table replaced by its content on lines of its own.
pub open spec fn replace_table_reference_spec(md: Seq<char>, id: Seq<char>, content: Seq<char>) -> Seq<char> {
    let ps = table_patterns(regex_escape_spec(id));
    let rep = "\n"@ + content + "\n"@;
    apply_pattern(apply_pattern(apply_pattern(apply_pattern(md, ps[0], rep), ps[1], rep), ps[2], rep), ps[3], rep)
}

fn apply_pattern_exec(md: String, a: &str, escaped: &str, b: &str, rep: &str) -> (r: String)
    ensures
        r@ == apply_pattern(md@, a@ + escaped@ + b@, rep@),
{
    let mut p = String::new();
    p.append(a);
    p.append(escaped);
    p.append(b);
    assert(p@ =~= a@ + escaped@ + b@);
    match regex_replace_all(p.as_str(), md.as_str(), rep) {
        Some(r) => r,
        None => md,
    }
}

pub fn replace_table_reference(markdown: String, table_id: &str, content: &str) -> (r: String)
    ensures
        r@ == replace_table_reference_spec(markdown@, table_id@, content@),
{
    let escaped = regex_escape(table_id);
    let mut rep = String::new();
    rep.append("\n");
    rep.append(content);
    rep.append("\n");
    let e = escaped.as_str();
    let r = rep.as_str();
    let m1 = apply_pattern_exec(markdown, "!?\\[[^\\]]*\\]\\(\\s*(?:\\./)?", e, "(?:#[^\\s\\)\"']+)?(?:\\s+(?:\"[^\"]*\"|'[^']*'))?\\s*\\)", r);
    let m2 = apply_pattern_exec(m1, "<\\s*(?:\\./)?", e, "\\s*>", r);
    let m3 = apply_pattern_exec(m2, "(?m)^\\s*\\[\\s*(?:\\./)?", e, "\\s*\\]\\s*$", r);
    let m4 = apply_pattern_exec(m3, "(?m)^\\s*(?:\\./)?", e, "\\s*$", r);
    assert(rep@ =~= "\n"@ + content@ + "\n"@);
    m4
}

/// The content a table is replaced by: for HTML its `html`, else `content`, else
/// `markdown` (the reverse preference for markdown), unless that is blank.
pub open spec fn table_replacement_spec(t: OcrTable, format: TableFormat) -> Option<Seq<char>> {
    let chosen = match format {
        TableFormat::Html => if t.html is Some { opt_view(t.html) } else if t.content is Some {
            opt_view(t.content)
        } else {
            opt_view(t.markdown)
        },
        TableFormat::Markdown => if t.markdown is Some { opt_view(t.markdown) } else if t.content is Some {
            opt_view(t.content)
        } else {
            opt_view(t.html)
        },
    };
    match chosen {
        Some(c) => if is_blank(c) { None } else { Some(c) },
        None => None,
    }
}

/// Each table format prefers its own form of a table: markdown for the
/// markdown format and HTML for the HTML format, then the plain content, then
/// the other form. The first form present decides: when it is blank the table
/// has no replacement. Whatever replaces a table is never blank, and is one of
/// the forms the table came with.
pub proof fn lemma_table_format_picks_its_form(t: OcrTable)
    ensures
        t.markdown matches Some(m) ==> (!is_blank(m@) ==> table_replacement_spec(t, TableFormat::Markdown)
            == Some(m@)),
        t.html matches Some(h) ==> (!is_blank(h@) ==> table_replacement_spec(t, TableFormat::Html) == Some(h@)),
        t.markdown is None ==> (t.content matches Some(c) ==> (!is_blank(c@) ==> table_replacement_spec(
            t,
            TableFormat::Markdown,
        ) == Some(c@))),
        t.html is None ==> (t.content matches Some(c) ==> (!is_blank(c@) ==> table_replacement_spec(
            t,
            TableFormat::Html,
        ) == Some(c@))),
        t.markdown is None && t.content is None ==> table_replacement_spec(t, TableFormat::Markdown)
            == table_replacement_spec(t, TableFormat::Html),
        t.markdown matches Some(m) ==> (is_blank(m@) ==> table_replacement_spec(t, TableFormat::Markdown) is None),
        t.html matches Some(h) ==> (is_blank(h@) ==> table_replacement_spec(t, TableFormat::Html) is None),
        forall|f: TableFormat| #[trigger] table_replacement_spec(t, f) matches Some(c) ==> !is_blank(c) && (
            opt_view(t.markdown) == Some(c) || opt_view(t.html) == Some(c) || opt_view(t.content) == Some(c)),
{
}

fn table_replacement(t: &OcrTable, format: TableFormat) -> (r: Option<String>)
    ensures
        opt_view(r) == table_replacement_spec(*t, format),
{
    let chosen = match format {
        TableFormat::Html => if t.html.is_some() { clone_opt(&t.html) } else if t.content.is_some() {
            clone_opt(&t.content)
        } else {
            clone_opt(&t.markdown)
        },
        TableFormat::Markdown => if t.markdown.is_some() { clone_opt(&t.markdown) } else if t.content.is_some() {
            clone_opt(&t.content)
        } else {
            clone_opt(&t.html)
        },
    };
    match chosen {
        Some(c) => {
            let cv = chars_of(c.as_str());
            if is_blank_exec(&cv) { None } else { Some(c) }
        },
        None => None,
    }
}

/// All placeholders of one table replaced, identifier by identifier.
pub open spec fn replace_ids_spec(md: Seq<char>, ids: Seq<Seq<char>>, content: Seq<char>) -> Seq<char>
    decreases ids.len(),
{
    if ids.len() == 0 {
        md
    } else {
        replace_ids_spec(replace_table_reference_spec(md, ids[0], content), ids.drop_first(), content)
    }
}

/// The tables of a page replaced in order, each under all of its identifiers.
pub open spec fn replace_tables_from(md: Seq<char>, page: OcrPage, format: TableFormat, k: int) -> Seq<char>
    decreases page.tables@.len() - k,
{
    if k < 0 || k >= page.tables@.len() {
        md
    } else {
        let t = page.tables@[k];
        let next = match table_replacement_spec(t, format) {
            Some(c) => replace_ids_spec(md, table_identifiers_spec(t, page.index as nat, k as nat), c),
            None => md,
        };
        replace_tables_from(next, page, format, k + 1)
    }
}

pub fn replace_table_placeholders(markdown: String, page: &OcrPage, table_format: TableFormat) -> (r: String)
    ensures
        r@ == replace_tables_from(markdown@, *page, table_format, 0),
{
    let mut md = markdown;
    let mut k: usize = 0;
    while k < page.tables.len()
        invariant
            k <= page.tables.len(),
            replace_tables_from(markdown@, *page, table_format, 0) == replace_tables_from(md@, *page, table_format, k as int),
        decreases page.tables.len() - k,
    {
        let t = &page.tables[k];
        if let Some(content) = table_replacement(t, table_format) {
            let ids = collect_table_identifiers(t, page.index, k);
            let ghost idv = ids.deep_view();
            let mut j: usize = 0;
            let ghost md_k = md@;
            assert(idv.subrange(0, idv.len() as int) == idv);
            while j < ids.len()
                invariant
                    j <= ids.len(),
                    idv == ids.deep_view(),
                    replace_ids_spec(md_k, idv, content@) == replace_ids_spec(md@, idv.subrange(j as int, idv.len() as int), content@),
                decreases ids.len() - j,
            {
                let ghost rest = idv.subrange(j as int, idv.len() as int);
                assert(rest[0] == idv[j as int]);
                assert(rest.drop_first() == idv.subrange(j + 1, idv.len() as int));
                assert(idv[j as int] == ids@[j as int]@);
                let id = string_of(&ids[j]);
                md = replace_table_reference(md, id.as_str(), content.as_str());
                j += 1;
            }
            assert(idv.subrange(idv.len() as int, idv.len() as int) =~= Seq::<Seq<char>>::empty());
        }
        k += 1;
    }
    md
}


// ---------------------------------------------------------------------------
// Slug counters and heading anchors.
// ---------------------------------------------------------------------------

/// How many times a slug has been handed out.
pub open spec fn slug_count(seen: Seq<(Seq<char>, nat)>, slug: Seq<char>) -> nat
    decreases seen.len(),
{
    if seen.len() == 0 {
        0
    } else if seen.last().0 == slug {
        seen.last().1
    } else {
        slug_count(seen.drop_last(), slug)
    }
}

/// The counters after handing out one more `slug`.
pub open spec fn bump_slug(seen: Seq<(Seq<char>, nat)>, slug: Seq<char>) -> Seq<(Seq<char>, nat)> {
    seen.push((slug, slug_count(seen, slug) + 1))
}

/// The `n`-th use of a slug: the slug itself the first time, else `slug-n`.
pub open spec fn numbered_slug(slug: Seq<char>, n: nat) -> Seq<char> {
    if n == 1 {
        slug
    } else {
        slug + "-"@ + decimal(n)
    }
}

pub open spec fn counters_view(v: Seq<(Vec<char>, usize)>) -> Seq<(Seq<char>, nat)> {
    v.map_values(|p: (Vec<char>, usize)| (p.0@, p.1 as nat))
}

fn slug_count_exec(seen: &Vec<(Vec<char>, usize)>, slug: &Vec<char>) -> (n: usize)
    requires
        forall|k: int| 0 <= k < seen.len() ==> (#[trigger] seen@[k]).1 <= k + 1,
    ensures
        n as nat == slug_count(counters_view(seen@), slug@),
        n <= seen.len(),
{
    let ghost sv = counters_view(seen@);
    let mut j = seen.len();
    assert(sv.take(j as int) == sv);
    while j > 0
        invariant
            j <= seen.len(),
            sv == counters_view(seen@),
            slug_count(sv, slug@) == slug_count(sv.take(j as int), slug@),
            forall|k: int| 0 <= k < seen.len() ==> (#[trigger] seen@[k]).1 <= k + 1,
        decreases j,
    {
        assert(sv.take(j as int).drop_last() == sv.take(j - 1));
        assert(sv.take(j as int).last() == sv[j - 1]);
        if crate::text::chars_eq(&seen[j - 1].0, slug) {
            assert(seen@[j - 1].1 <= j);
            return seen[j - 1].1;
        }
        j -= 1;
    }
    assert(sv.take(0) =~= Seq::<(Seq<char>, nat)>::empty());
    0
}

/// Hands out `slug` once more; returns how many times it has now been handed out.
fn bump_slug_exec(seen: &mut Vec<(Vec<char>, usize)>, slug: &Vec<char>) -> (n: usize)
    requires
        old(seen).len() < usize::MAX,
        forall|k: int| 0 <= k < old(seen).len() ==> (#[trigger] old(seen)@[k]).1 <= k + 1,
    ensures
        n as nat == slug_count(counters_view(old(seen)@), slug@) + 1,
        counters_view(final(seen)@) == bump_slug(counters_view(old(seen)@), slug@),
        final(seen).len() == old(seen).len() + 1,
        forall|k: int| 0 <= k < final(seen).len() ==> (#[trigger] final(seen)@[k]).1 <= k + 1,
{
    let ghost sv = counters_view(seen@);
    let found = slug_count_exec(seen, slug);
    let n = found + 1;
    seen.push((slug.clone(), n));
    assert(counters_view(seen@) =~= bump_slug(sv, slug@));
    n
}

/// The slug numbered for its `n`-th use.
fn numbered_slug_exec(slug: &Vec<char>, n: usize) -> (r: Vec<char>)
    ensures
        r@ == numbered_slug(slug@, n as nat),
{
    if n == 1 {
        slug.clone()
    } else {
        let mut r = slug.clone();
        extend_str(&mut r, "-");
        let d = decimal_exec(n as u64);
        extend_chars(&mut r, &d);
        r
    }
}

/// An HTML heading element `<hN>..</hN>`.
pub open spec fn html_heading_pattern() -> Seq<char> {
    "(?s)<h([1-6])>(.*?)</h[1-6]>"@
}

/// Any tag.
pub open spec fn html_tag_pattern() -> Seq<char> {
    "<[^>]+>"@
}

/// One heading rewritten with an `id` made from the slug of its text.
pub open spec fn anchor_heading(groups: Seq<Option<Seq<char>>>, seen: Seq<(Seq<char>, nat)>) -> (Seq<char>, Seq<(Seq<char>, nat)>) {
    let level = match group_text(groups, 1) {
        Some(m) => m,
        None => "2"@,
    };
    let inner = match group_text(groups, 2) {
        Some(m) => m,
        None => seq![],
    };
    let plain = match regex_replaced(html_tag_pattern(), inner, ""@) {
        Some(p) => p,
        None => inner,
    };
    let base = slugify_spec(plain);
    let n = slug_count(seen, base) + 1;
    let slug = numbered_slug(base, n);
    (
        "<h"@ + level + " id=\""@ + slug + "\">"@ + inner + "</h"@ + level + ">"@,
        bump_slug(seen, base),
    )
}

/// The headings of the pieces from `k` on rewritten, with the text between them kept.
pub open spec fn anchors_from(
    pieces: Seq<(Seq<char>, Seq<Option<Seq<char>>>)>,
    k: int,
    seen: Seq<(Seq<char>, nat)>,
) -> Seq<char>
    decreases pieces.len() - k,
{
    if k < 0 || k >= pieces.len() {
        seq![]
    } else {
        let (h, seen2) = anchor_heading(pieces[k].1, seen);
        pieces[k].0 + h + anchors_from(pieces, k + 1, seen2)
    }
}

/// Every heading given an `id` anchor (the slug of its text, numbered when repeated).
pub open spec fn add_heading_anchors_spec(input: Seq<char>) -> Seq<char> {
    match regex_pieces(html_heading_pattern(), input) {
        Some((pieces, tail)) => if regex_matches(html_tag_pattern(), ""@) is Some {
            anchors_from(pieces, 0, seq![]) + tail
        } else {
            input
        },
        None => input,
    }
}


fn anchor_heading_exec(groups: &Vec<Option<String>>, seen: &mut Vec<(Vec<char>, usize)>) -> (r: Vec<char>)
    requires
        old(seen).len() < usize::MAX,
        forall|k: int| 0 <= k < old(seen).len() ==> (#[trigger] old(seen)@[k]).1 <= k + 1,
    ensures
        (r@, counters_view(final(seen)@)) == anchor_heading(groups_view(groups@), counters_view(old(seen)@)),
        final(seen).len() == old(seen).len() + 1,
        forall|k: int| 0 <= k < final(seen).len() ==> (#[trigger] final(seen)@[k]).1 <= k + 1,
{
    let level = match group_exec(groups, 1) {
        Some(m) => m,
        None => chars_of("2"),
    };
    let inner = match group_exec(groups, 2) {
        Some(m) => m,
        None => Vec::new(),
    };
    let inner_text = string_of(&inner);
    let plain = match regex_replace_all("<[^>]+>", inner_text.as_str(), "") {
        Some(p) => chars_of(p.as_str()),
        None => inner.clone(),
    };
    let plain_text = string_of(&plain);
    let base = chars_of(slugify(plain_text.as_str()).as_str());
    let n = bump_slug_exec(seen, &base);
    let slug = numbered_slug_exec(&base, n);
    let mut r = chars_of("<h");
    extend_chars(&mut r, &level);
    extend_str(&mut r, " id=\"");
    extend_chars(&mut r, &slug);
    extend_str(&mut r, "\">");
    extend_chars(&mut r, &inner);
    extend_str(&mut r, "</h");
    extend_chars(&mut r, &level);
    extend_str(&mut r, ">");
    r
}

pub fn add_heading_anchors(input: String) -> (r: String)
    ensures
        r@ == add_heading_anchors_spec(input@),
{
    let pieces = match regex_match_pieces("(?s)<h([1-6])>(.*?)</h[1-6]>", input.as_str()) {
        Some(p) => p,
        None => return input,
    };
    if regex_is_match("<[^>]+>", "").is_none() {
        return input;
    }
    let ghost pv = pieces.0@.map_values(|x: (String, Vec<Option<String>>)| piece_view(x));
    let mut out: Vec<char> = Vec::new();
    let mut seen: Vec<(Vec<char>, usize)> = Vec::new();
    let mut k: usize = 0;
    assert(counters_view(seen@) =~= seq![]);
    assert(out@ =~= seq![]);
    assert(out@ + anchors_from(pv, 0, counters_view(seen@)) =~= anchors_from(pv, 0, seq![]));
    while k < pieces.0.len()
        invariant
            k <= pieces.0.len(),
            pv == pieces.0@.map_values(|x: (String, Vec<Option<String>>)| piece_view(x)),
            seen.len() == k,
            forall|j: int| 0 <= j < seen.len() ==> (#[trigger] seen@[j]).1 <= j + 1,
            out@ + anchors_from(pv, k as int, counters_view(seen@)) == anchors_from(pv, 0, seq![]),
        decreases pieces.0.len() - k,
    {
        let ghost seen0 = counters_view(seen@);
        let gap = chars_of(pieces.0[k].0.as_str());
        extend_chars(&mut out, &gap);
        let h = anchor_heading_exec(&pieces.0[k].1, &mut seen);
        extend_chars(&mut out, &h);
        assert(pv[k as int] == piece_view(pieces.0@[k as int]));
        k += 1;
    }
    let tail = chars_of(pieces.1.as_str());
    extend_chars(&mut out, &tail);
    string_of(&out)
}


// ---------------------------------------------------------------------------
// Stable ordering of positions by a key.
// ---------------------------------------------------------------------------

/// `sorted` (positions ordered by key) with position `p` inserted after every
/// position whose key is not greater.
pub open spec fn insert_by_key(sorted: Seq<int>, p: int, keys: Seq<int>) -> Seq<int>
    decreases sorted.len(),
{
    if sorted.len() == 0 {
        seq![p]
    } else if keys[sorted.last()] <= keys[p] {
        sorted.push(p)
    } else {
        insert_by_key(sorted.drop_last(), p, keys).push(sorted.last())
    }
}

/// The positions `0 .. n` in the order of a stable sort by key.
pub open spec fn stable_order(keys: Seq<int>, n: int) -> Seq<int>
    decreases n,
{
    if n <= 0 {
        seq![]
    } else {
        insert_by_key(stable_order(keys, n - 1), n - 1, keys)
    }
}

proof fn lemma_insert_at(sorted: Seq<int>, p: int, keys: Seq<int>, j: int)
    requires
        0 <= j <= sorted.len(),
        forall|m: int| j <= m < sorted.len() ==> keys[#[trigger] sorted[m]] > keys[p],
        j > 0 ==> keys[sorted[j - 1]] <= keys[p],
    ensures
        insert_by_key(sorted, p, keys) == sorted.subrange(0, j).push(p) + sorted.subrange(j, sorted.len() as int),
    decreases sorted.len(),
{
    if sorted.len() == 0 {
        assert(sorted.subrange(0, 0).push(p) + sorted.subrange(0, 0) =~= seq![p]);
    } else if j == sorted.len() {
        assert(sorted.subrange(0, j) == sorted);
        assert(sorted.subrange(0, j).push(p) + sorted.subrange(j, sorted.len() as int) =~= sorted.push(p));
    } else {
        let d = sorted.drop_last();
        assert forall|m: int| j <= m < d.len() implies keys[#[trigger] d[m]] > keys[p] by {
            assert(d[m] == sorted[m]);
        }
        if j > 0 {
            assert(d[j - 1] == sorted[j - 1]);
        }
        lemma_insert_at(d, p, keys, j);
        assert(keys[sorted[sorted.len() - 1]] > keys[p]);
        assert(insert_by_key(sorted, p, keys) == insert_by_key(d, p, keys).push(sorted.last()));
        assert(d.subrange(0, j) == sorted.subrange(0, j));
        assert(d.subrange(j, d.len() as int).push(sorted.last()) == sorted.subrange(j, sorted.len() as int));
        assert(sorted.subrange(0, j).push(p) + sorted.subrange(j, sorted.len() as int) =~= (d.subrange(0, j).push(p)
            + d.subrange(j, d.len() as int)).push(sorted.last()));
    }
}

pub open spec fn keys_view(keys: Seq<usize>) -> Seq<int> {
    keys.map_values(|k: usize| k as int)
}

pub open spec fn positions_view(v: Seq<usize>) -> Seq<int> {
    v.map_values(|k: usize| k as int)
}

/// The positions `0 .. keys.len()` ordered stably by key (insertion sort).
pub fn stable_order_by_key(keys: &Vec<usize>) -> (r: Vec<usize>)
    ensures
        positions_view(r@) == stable_order(keys_view(keys@), keys.len() as int),
        r.len() == keys.len(),
        forall|m: int| 0 <= m < r.len() ==> #[trigger] r@[m] < keys.len(),
{
    let ghost kv = keys_view(keys@);
    let mut r: Vec<usize> = Vec::new();
    let mut i: usize = 0;
    while i < keys.len()
        invariant
            i <= keys.len(),
            kv == keys_view(keys@),
            r.len() == i,
            positions_view(r@) == stable_order(kv, i as int),
            forall|m: int| 0 <= m < r.len() ==> #[trigger] r@[m] < i,
        decreases keys.len() - i,
    {
        let ghost sorted = positions_view(r@);
        let mut j = r.len();
        while j > 0 && keys[r[j - 1]] > keys[i]
            invariant
                j <= r.len(),
                i < keys.len(),
                kv == keys_view(keys@),
                sorted == positions_view(r@),
                forall|m: int| 0 <= m < r.len() ==> #[trigger] r@[m] < i,
                forall|m: int| j <= m < sorted.len() ==> kv[#[trigger] sorted[m]] > kv[i as int],
            decreases j,
        {
            j -= 1;
        }
        proof {
            if j > 0 {
                assert(kv[sorted[j - 1]] <= kv[i as int]);
            }
            lemma_insert_at(sorted, i as int, kv, j as int);
        }
        r.insert(j, i);
        assert(positions_view(r@) =~= sorted.subrange(0, j as int).push(i as int) + sorted.subrange(j as int, sorted.len() as int));
        i += 1;
    }
    r
}


// ---------------------------------------------------------------------------
// Markdown rendering.
// ---------------------------------------------------------------------------

/// The HTML that `pulldown_cmark` renders for markdown, with the given extensions
/// (tables, strikethrough, footnotes, task lists) switched on.
pub uninterp spec fn markdown_html(md: Seq<char>, tables: bool, strikethrough: bool, footnotes: bool, tasklists: bool) -> Seq<char>;

/// Calls `pulldown_cmark::Parser::new_ext` and `pulldown_cmark::html::push_html`.
#[verifier::external_body]
fn render_commonmark(md: &str, tables: bool, strikethrough: bool, footnotes: bool, tasklists: bool) -> (r: String)
    ensures
        r@ == markdown_html(md@, tables, strikethrough, footnotes, tasklists),
{
    let mut options = pulldown_cmark::Options::empty();
    options.set(pulldown_cmark::Options::ENABLE_TABLES, tables);
    options.set(pulldown_cmark::Options::ENABLE_STRIKETHROUGH, strikethrough);
    options.set(pulldown_cmark::Options::ENABLE_FOOTNOTES, footnotes);
    options.set(pulldown_cmark::Options::ENABLE_TASKLISTS, tasklists);
    let mut html = String::new();
    pulldown_cmark::html::push_html(&mut html, pulldown_cmark::Parser::new_ext(md, options));
    html
}

/// Chapter HTML: markdown rendered with tables, strikethrough, footnotes and task
/// lists, block quotes turned into callout asides, headings given anchors.
pub open spec fn render_markdown_spec(md: Seq<char>) -> Seq<char> {
    let html = markdown_html(md, true, true, true, true);
    let a = replace_spec(html, "<blockquote>"@, "<aside class=\"callout\">"@);
    let b = replace_spec(a, "</blockquote>"@, "</aside>"@);
    add_heading_anchors_spec(b)
}

pub fn render_markdown_to_html(markdown: &str) -> (r: String)
    ensures
        r@ == render_markdown_spec(markdown@),
{
    proof {
        reveal_strlit("<blockquote>");
        reveal_strlit("</blockquote>");
    }
    let html = render_commonmark(markdown, true, true, true, true);
    let a = crate::text::replace_str(html.as_str(), "<blockquote>", "<aside class=\"callout\">");
    let b = crate::text::replace_str(a.as_str(), "</blockquote>", "</aside>");
    add_heading_anchors(b)
}

// ---------------------------------------------------------------------------
// OCR images.
// ---------------------------------------------------------------------------

/// What `base64`'s standard engine decodes from a text: the bytes, or the text
/// of its error.
pub uninterp spec fn base64_standard_decoded(encoded: Seq<char>) -> Result<Seq<u8>, Seq<char>>;

/// Calls `base64::engine::general_purpose::STANDARD.decode`.
#[verifier::external_body]
fn base64_decode(encoded: &str) -> (r: Result<Vec<u8>, String>)
    ensures
        match r {
            Ok(b) => base64_standard_decoded(encoded@) == Ok::<Seq<u8>, Seq<char>>(b@),
            Err(e) => base64_standard_decoded(encoded@) == Err::<Seq<u8>, Seq<char>>(e@),
        },
{
    base64::engine::general_purpose::STANDARD.decode(encoded).map_err(|e| e.to_string())
}

/// The base64 text of an image payload: after the first `,` of a
/// `data:...;base64,` URI, else the payload itself.
pub open spec fn base64_payload(s: Seq<char>) -> Seq<char> {
    let c = crate::text::first_in_class(s, CharClass::Exactly(','));
    if starts_with(s, "data:"@) && c >= 0 && ends_with(s.subrange(0, c), ";base64"@) {
        s.subrange(c + 1, s.len() as int)
    } else {
        s
    }
}

fn base64_payload_exec(s: &str) -> (r: String)
    ensures
        r@ == base64_payload(s@),
{
    let v = chars_of(s);
    let d = chars_of("data:");
    if !starts_with_exec(&v, &d) {
        return String::from_str(s);
    }
    let (found, c) = find_first(&v, ',');
    if !found {
        return String::from_str(s);
    }
    let head = sub_chars(&v, 0, c);
    let b = chars_of(";base64");
    if ends_with_exec(&head, &b) {
        let rest = sub_chars(&v, c + 1, v.len());
        string_of(&rest)
    } else {
        String::from_str(s)
    }
}

/// Whether `c` occurs, and the index of its first occurrence.
pub(crate) fn find_first(v: &[char], c: char) -> (r: (bool, usize))
    ensures
        r.0 ==> r.1 < v.len() && crate::text::first_in_class(v@, CharClass::Exactly(c)) == r.1 as int,
        !r.0 ==> crate::text::first_in_class(v@, CharClass::Exactly(c)) < 0,
{
    let mut i: usize = 0;
    while i < v.len()
        invariant
            i <= v.len(),
            forall|k: int| 0 <= k < i ==> !in_class(CharClass::Exactly(c), #[trigger] v@[k]),
        decreases v.len() - i,
    {
        if v[i] == c {
            proof {
                crate::text::lemma_first_in_class_at(v@, CharClass::Exactly(c), i as int);
            }
            return (true, i);
        }
        i += 1;
    }
    proof {
        crate::text::lemma_first_in_class_at(v@, CharClass::Exactly(c), v.len() as int);
    }
    (false, 0)
}

/// Images extracted so far: the assets, the placeholder-to-path map, the image ids
/// already handled and the file names already taken.
pub struct ImageState {
    pub images: Seq<(Seq<char>, Seq<char>, Seq<u8>)>,
    pub map: Seq<(Seq<char>, Seq<char>)>,
    pub seen: Seq<Seq<char>>,
    pub used: Seq<Seq<char>>,
}

pub open spec fn empty_image_state() -> ImageState {
    ImageState { images: seq![], map: seq![], seen: seq![], used: seq![] }
}

/// The message for an image payload that is not valid base64.
pub open spec fn image_decode_message(id: Seq<char>, error: Seq<char>) -> Seq<char> {
    "Failed decoding OCR image '"@ + id + "' as base64: "@ + error
}

/// One OCR image handled: skipped when its id was handled before or it has no
/// payload; otherwise decoded and given a unique file name under `../images/`.
pub open spec fn image_step(st: ImageState, page: nat, k: nat, img: OcrImage) -> Result<ImageState, Seq<char>> {
    if st.seen.contains(img.id@) {
        Ok(st)
    } else {
        match img.image_base64 {
            None => Ok(st),
            Some(enc) => match base64_standard_decoded(base64_payload(enc@)) {
                Err(e) => Err(image_decode_message(img.id@, e)),
                Ok(bytes) => {
                    let name = unique_asset_name_spec(img.id@, page, k, st.used);
                    Ok(ImageState {
                        images: st.images.push((name, media_type_spec(name), bytes)),
                        map: st.map.push((img.id@, "../images/"@ + name)),
                        seen: st.seen.push(img.id@),
                        used: st.used.push(name),
                    })
                },
            },
        }
    }
}

/// The names taken so far are the names of the images so far, each once.
pub open spec fn names_recorded(st: ImageState) -> bool {
    &&& st.images.len() == st.used.len()
    &&& forall|i: int| 0 <= i < st.images.len() ==> #[trigger] st.images[i].0 == st.used[i]
    &&& st.used.no_duplicates()
}

proof fn lemma_unique_name_free(id: Seq<char>, page: nat, index: nat, used: Seq<Seq<char>>)
    ensures
        !used.contains(unique_asset_name_spec(id, page, index, used)),
{
    let s = sanitize_asset_name_spec(id);
    if used.contains(s) {
        lemma_first_free_name(s, page, index, used, 0);
    }
}

proof fn lemma_image_step_records(st: ImageState, page: nat, k: nat, img: OcrImage)
    requires
        names_recorded(st),
    ensures
        image_step(st, page, k, img) matches Ok(s2) ==> names_recorded(s2),
{
    if let Ok(s2) = image_step(st, page, k, img) {
        if s2 != st {
            let name = unique_asset_name_spec(img.id@, page, k, st.used);
            lemma_unique_name_free(img.id@, page, k, st.used);
            assert forall|i: int, j: int| 0 <= i < s2.used.len() && 0 <= j < s2.used.len() && i != j
                implies s2.used[i] != s2.used[j] by {
                if i == st.used.len() as int {
                    assert(st.used[j] == s2.used[j]);
                } else if j == st.used.len() as int {
                    assert(st.used[i] == s2.used[i]);
                }
            }
            assert forall|i: int| 0 <= i < s2.images.len() implies #[trigger] s2.images[i].0 == s2.used[i] by {
                if i < st.images.len() {
                    assert(s2.images[i] == st.images[i]);
                }
            }
        }
    }
}

proof fn lemma_fold_page_records(st: ImageState, page: OcrPage, k: int)
    requires
        names_recorded(st),
    ensures
        fold_page_images(st, page, k) matches Ok(s2) ==> names_recorded(s2),
    decreases page.images@.len() - k,
{
    if 0 <= k < page.images@.len() {
        lemma_image_step_records(st, page.index as nat, k as nat, page.images@[k]);
        if let Ok(s2) = image_step(st, page.index as nat, k as nat, page.images@[k]) {
            lemma_fold_page_records(s2, page, k + 1);
        }
    }
}

proof fn lemma_fold_pages_records(st: ImageState, pages: Seq<OcrPage>, order: Seq<int>, p: int)
    requires
        names_recorded(st),
    ensures
        fold_pages_images(st, pages, order, p) matches Ok(s2) ==> names_recorded(s2),
    decreases order.len() - p,
{
    if 0 <= p < order.len() {
        lemma_fold_page_records(st, pages[order[p]], 0);
        if let Ok(s2) = fold_page_images(st, pages[order[p]], 0) {
            lemma_fold_pages_records(s2, pages, order, p + 1);
        }
    }
}

/// The images of one page from the `k`-th on.
pub open spec fn fold_page_images(st: ImageState, page: OcrPage, k: int) -> Result<ImageState, Seq<char>>
    decreases page.images@.len() - k,
{
    if k < 0 || k >= page.images@.len() {
        Ok(st)
    } else {
        match image_step(st, page.index as nat, k as nat, page.images@[k]) {
            Ok(s2) => fold_page_images(s2, page, k + 1),
            Err(e) => Err(e),
        }
    }
}

/// The images of the pages in the given order, from the `p`-th page on.
pub open spec fn fold_pages_images(st: ImageState, pages: Seq<OcrPage>, order: Seq<int>, p: int) -> Result<ImageState, Seq<char>>
    decreases order.len() - p,
{
    if p < 0 || p >= order.len() {
        Ok(st)
    } else {
        match fold_page_images(st, pages[order[p]], 0) {
            Ok(s2) => fold_pages_images(s2, pages, order, p + 1),
            Err(e) => Err(e),
        }
    }
}

/// The index of the first image with a payload, from `k` on.
pub open spec fn first_payload(imgs: Seq<OcrImage>, k: int) -> Option<int>
    decreases imgs.len() - k,
{
    if k < 0 || k >= imgs.len() {
        None
    } else if imgs[k].image_base64 is Some {
        Some(k)
    } else {
        first_payload(imgs, k + 1)
    }
}

/// The images to package: every image when body images are included, else only
/// the first image with a payload on the first page (the cover).
pub open spec fn extract_images_spec(pages: Seq<OcrPage>, order: Seq<int>, with_body_images: bool) -> Result<ImageState, Seq<char>> {
    if with_body_images {
        fold_pages_images(empty_image_state(), pages, order, 0)
    } else if order.len() > 0 {
        let first = pages[order[0]];
        match first_payload(first.images@, 0) {
            Some(k) => image_step(empty_image_state(), first.index as nat, k as nat, first.images@[k]),
            None => Ok(empty_image_state()),
        }
    } else {
        Ok(empty_image_state())
    }
}

/// Every image packaged with a book gets a file name of its own.
pub proof fn lemma_image_names_distinct(pages: Seq<OcrPage>, order: Seq<int>, with_body_images: bool)
    ensures
        extract_images_spec(pages, order, with_body_images) matches Ok(st) ==> forall|i: int, j: int|
            0 <= i < j < st.images.len() ==> #[trigger] st.images[i].0 != #[trigger] st.images[j].0,
{
    let e = empty_image_state();
    assert(names_recorded(e));
    if with_body_images {
        lemma_fold_pages_records(e, pages, order, 0);
    } else if order.len() > 0 {
        let first = pages[order[0]];
        if let Some(k) = first_payload(first.images@, 0) {
            lemma_image_step_records(e, first.index as nat, k as nat, first.images@[k]);
        }
    }
    if let Ok(st) = extract_images_spec(pages, order, with_body_images) {
        assert forall|i: int, j: int| 0 <= i < j < st.images.len() implies #[trigger] st.images[i].0
            != #[trigger] st.images[j].0 by {
            assert(st.images[i].0 == st.used[i] && st.images[j].0 == st.used[j]);
        }
    }
}

/// The cover: the first image with a payload on the first page.
pub open spec fn cover_image_spec(pages: Seq<OcrPage>, order: Seq<int>) -> Option<Seq<char>> {
    if order.len() > 0 {
        let first = pages[order[0]];
        match first_payload(first.images@, 0) {
            Some(k) => Some(sanitize_asset_name_spec(first.images@[k].id@)),
            None => None,
        }
    } else {
        None
    }
}

pub open spec fn asset_view(a: ImageAsset) -> (Seq<char>, Seq<char>, Seq<u8>) {
    (a.file_name@, a.media_type@, a.bytes@)
}

pub open spec fn assets_view(v: Seq<ImageAsset>) -> Seq<(Seq<char>, Seq<char>, Seq<u8>)> {
    v.map_values(|a: ImageAsset| asset_view(a))
}

/// The exec counterpart of `ImageState`.
pub struct ImageWork {
    pub images: Vec<ImageAsset>,
    pub map: Vec<(Vec<char>, Vec<char>)>,
    pub seen: Vec<Vec<char>>,
    pub used: Vec<Vec<char>>,
}

pub open spec fn work_view(w: ImageWork) -> ImageState {
    ImageState {
        images: assets_view(w.images@),
        map: pairs_view(w.map@),
        seen: w.seen.deep_view(),
        used: w.used.deep_view(),
    }
}

fn image_step_exec(w: &mut ImageWork, page: usize, k: usize, img: &OcrImage) -> (r: Result<(), String>)
    ensures
        match r {
            Ok(()) => image_step(work_view(*old(w)), page as nat, k as nat, *img) == Ok::<ImageState, Seq<char>>(work_view(*final(w))),
            Err(e) => image_step(work_view(*old(w)), page as nat, k as nat, *img) == Err::<ImageState, Seq<char>>(e@),
        },
{
    let id = chars_of(img.id.as_str());
    if seqs_contain(&w.seen, &id) {
        return Ok(());
    }
    let enc = match &img.image_base64 {
        None => return Ok(()),
        Some(e) => e,
    };
    let payload = base64_payload_exec(enc.as_str());
    match base64_decode(payload.as_str()) {
        Err(e) => {
            let mut m = String::from_str("Failed decoding OCR image '");
            m.append(img.id.as_str());
            m.append("' as base64: ");
            m.append(e.as_str());
            assert(m@ =~= image_decode_message(id@, e@));
            Err(m)
        },
        Ok(bytes) => {
            let ghost old_w = work_view(*w);
            let name = unique_asset_name(&id, page, k, &mut w.used);
            let media = media_type_from_filename(&name);
            let mut path = chars_of("../images/");
            extend_chars(&mut path, &name);
            let ghost mv = pairs_view(w.map@);
            w.map.push((id.clone(), path));
            assert(pairs_view(w.map@) =~= mv.push((id@, "../images/"@ + name@)));
            let ghost sv = w.seen.deep_view();
            assert(id.deep_view() == id@);
            w.seen.push(id);
            assert(w.seen.deep_view() =~= sv.push(id@));
            let ghost av = assets_view(w.images@);
            let asset = ImageAsset { file_name: string_of(&name), media_type: String::from_str(media), bytes };
            w.images.push(asset);
            assert(assets_view(w.images@) =~= av.push((name@, media_type_spec(name@), bytes@)));
            Ok(())
        },
    }
}

fn empty_work() -> (w: ImageWork)
    ensures
        work_view(w) == empty_image_state(),
{
    let w = ImageWork { images: Vec::new(), map: Vec::new(), seen: Vec::new(), used: Vec::new() };
    assert(work_view(w).images =~= seq![]);
    assert(work_view(w).map =~= seq![]);
    assert(work_view(w).seen =~= seq![]);
    assert(work_view(w).used =~= seq![]);
    w
}

/// Decodes the OCR images to package (see `extract_images_spec`), visiting pages
/// in the given order.
pub fn extract_images(pages: &Vec<OcrPage>, order: &Vec<usize>, include_images: bool) -> (r: Result<ImageWork, String>)
    requires
        forall|m: int| 0 <= m < order.len() ==> #[trigger] order@[m] < pages.len(),
    ensures
        r matches Ok(wk) ==> extract_images_spec(pages@, positions_view(order@), include_images) == Ok::<ImageState, Seq<char>>(work_view(wk)),
        r matches Err(e) ==> extract_images_spec(pages@, positions_view(order@), include_images) == Err::<ImageState, Seq<char>>(e@),
{
    let ghost ov = positions_view(order@);
    let mut w = empty_work();
    if !include_images {
        if order.len() == 0 {
            return Ok(w);
        }
        let first = &pages[order[0]];
        assert(ov[0] == order@[0] as int);
        let mut k: usize = 0;
        while k < first.images.len()
            invariant
                k <= first.images.len(),
                order.len() > 0,
                !include_images,
                ov == positions_view(order@),
                *first == pages@[ov[0]],
                work_view(w) == empty_image_state(),
                first_payload(first.images@, 0) == first_payload(first.images@, k as int),
            decreases first.images.len() - k,
        {
            if first.images[k].image_base64.is_some() {
                assert(first_payload(first.images@, k as int) == Some(k as int));
                let res = image_step_exec(&mut w, first.index, k, &first.images[k]);
                assert(extract_images_spec(pages@, ov, false) == image_step(empty_image_state(), first.index as nat, k as nat, first.images@[k as int]));
                return match res {
                    Ok(()) => Ok(w),
                    Err(e) => Err(e),
                };
            }
            k += 1;
        }
        return Ok(w);
    }
    let mut p: usize = 0;
    while p < order.len()
        invariant
            p <= order.len(),
            include_images,
            ov == positions_view(order@),
            forall|m: int| 0 <= m < order.len() ==> #[trigger] order@[m] < pages.len(),
            extract_images_spec(pages@, ov, true) == fold_pages_images(work_view(w), pages@, ov, p as int),
        decreases order.len() - p,
    {
        let page = &pages[order[p]];
        assert(ov[p as int] == order@[p as int] as int);
        let ghost st0 = work_view(w);
        let mut k: usize = 0;
        while k < page.images.len()
            invariant
                k <= page.images.len(),
                p < order.len(),
                include_images,
                ov == positions_view(order@),
                *page == pages@[ov[p as int]],
                extract_images_spec(pages@, ov, true) == fold_pages_images(st0, pages@, ov, p as int),
                fold_page_images(st0, *page, 0) == fold_page_images(work_view(w), *page, k as int),
            decreases page.images.len() - k,
        {
            let ghost wk = work_view(w);
            let res = image_step_exec(&mut w, page.index, k, &page.images[k]);
            if let Err(e) = res {
                assert(fold_page_images(wk, *page, k as int) == Err::<ImageState, Seq<char>>(e@));
                assert(fold_page_images(st0, *page, 0) == Err::<ImageState, Seq<char>>(e@));
                assert(fold_pages_images(st0, pages@, ov, p as int) == Err::<ImageState, Seq<char>>(e@));
                return Err(e);
            }
            k += 1;
        }
        p += 1;
    }
    Ok(w)
}


// ---------------------------------------------------------------------------
// The whole book.
// ---------------------------------------------------------------------------

/// The cleaned markdown of one page: header and footer removed, tables inlined,
/// images pointed at packaged files (or removed when body images are off), trimmed.
pub open spec fn page_markdown_spec(
    page: OcrPage,
    format: TableFormat,
    with_body_images: bool,
    map: Seq<(Seq<char>, Seq<char>)>,
) -> Seq<char> {
    let a = strip_header_footer_spec(page.markdown@, opt_view(page.header), opt_view(page.footer));
    let b = replace_tables_from(a, page, format, 0);
    trim(if with_body_images { replace_images_spec(b, map) } else { strip_images_spec(b) })
}

/// The non-empty page texts of the first `n` pages in reading order.
pub open spec fn page_texts(
    pages: Seq<OcrPage>,
    order: Seq<int>,
    format: TableFormat,
    with_body_images: bool,
    map: Seq<(Seq<char>, Seq<char>)>,
    n: int,
) -> Seq<Seq<char>>
    decreases n,
{
    if n <= 0 {
        seq![]
    } else {
        let r = page_texts(pages, order, format, with_body_images, map, n - 1);
        let t = page_markdown_spec(pages[order[n - 1]], format, with_body_images, map);
        if t.len() > 0 {
            r.push(t)
        } else {
            r
        }
    }
}

/// The file-name slugs of the first `n` chapters, numbered when repeated, and the
/// slug counters after them.
pub open spec fn chapter_slugs(cs: Seq<(Seq<char>, Seq<char>)>, n: int) -> (Seq<Seq<char>>, Seq<(Seq<char>, nat)>)
    decreases n,
{
    if n <= 0 {
        (seq![], seq![])
    } else {
        let (slugs, seen) = chapter_slugs(cs, n - 1);
        let base = slugify_spec(cs[n - 1].0);
        (slugs.push(numbered_slug(base, slug_count(seen, base) + 1)), bump_slug(seen, base))
    }
}

proof fn lemma_chapter_slugs_len(cs: Seq<(Seq<char>, Seq<char>)>, n: int)
    requires
        0 <= n,
    ensures
        chapter_slugs(cs, n).0.len() == n,
    decreases n,
{
    if n > 0 {
        lemma_chapter_slugs_len(cs, n - 1);
    }
}

/// `chapter-NNN`, numbering chapters from 1.
pub open spec fn chapter_id(k: nat) -> Seq<char> {
    "chapter-"@ + zero_padded(k + 1, 3)
}

/// The reading order of OCR pages: stably by page index.
pub open spec fn page_order(pages: Seq<OcrPage>) -> Seq<int> {
    stable_order(pages.map_values(|p: OcrPage| p.index as int), pages.len() as int)
}

/// The markdown of the whole book, pages joined by blank lines.
pub open spec fn book_markdown_spec(pages: Seq<OcrPage>, format: TableFormat, with_body_images: bool, map: Seq<(Seq<char>, Seq<char>)>) -> Seq<char> {
    let order = page_order(pages);
    join(page_texts(pages, order, format, with_body_images, map, order.len() as int), "\n\n"@)
}

pub open spec fn chapter_view(c: RenderedChapter) -> (Seq<char>, Seq<char>, Seq<char>, Seq<char>, Seq<char>) {
    (c.id@, c.title@, c.file_name@, c.markdown@, c.xhtml@)
}

/// Chapter `k` of the book, from its (title, markdown) pair and its slug.
pub open spec fn chapter_spec(k: nat, title: Seq<char>, md: Seq<char>, slug: Seq<char>, language: Seq<char>) -> (Seq<char>, Seq<char>, Seq<char>, Seq<char>, Seq<char>) {
    (
        chapter_id(k),
        title,
        chapter_id(k) + "-"@ + slug + ".xhtml"@,
        md,
        xhtml_document_spec(title, language, render_markdown_spec(md)),
    )
}

/// The message when OCR left nothing readable.
pub open spec fn no_content_message() -> Seq<char> {
    "No readable content found after OCR normalization."@
}

/// The language of the book: the resolved metadata language, else the configured one.
pub open spec fn book_language(cfg: ConvertConfig, metadata: BookMetadata) -> Seq<char> {
    match metadata.language {
        Some(l) => l@,
        None => cfg.language@,
    }
}

pub(crate) fn clone_keys(pages: &Vec<OcrPage>) -> (r: Vec<usize>)
    ensures
        keys_view(r@) == pages@.map_values(|p: OcrPage| p.index as int),
        r.len() == pages.len(),
{
    let mut r: Vec<usize> = Vec::new();
    let mut i: usize = 0;
    while i < pages.len()
        invariant
            i <= pages.len(),
            r.len() == i,
            forall|k: int| 0 <= k < i ==> #[trigger] r@[k] == pages@[k].index,
        decreases pages.len() - i,
    {
        r.push(pages[i].index);
        i += 1;
    }
    assert(keys_view(r@) =~= pages@.map_values(|p: OcrPage| p.index as int));
    r
}

fn opt_string_chars(o: &Option<String>) -> (r: Option<Vec<char>>)
    ensures
        opt_chars(r) == opt_view(*o),
{
    match o {
        Some(s) => Some(chars_of(s.as_str())),
        None => None,
    }
}

fn page_markdown(page: &OcrPage, format: TableFormat, with_body_images: bool, map: &Vec<(Vec<char>, Vec<char>)>) -> (r: Vec<char>)
    ensures
        r@ == page_markdown_spec(*page, format, with_body_images, pairs_view(map@)),
{
    let md = chars_of(page.markdown.as_str());
    let a = strip_header_footer(md, opt_string_chars(&page.header), opt_string_chars(&page.footer));
    let a_text = string_of(&a);
    let b = replace_table_placeholders(a_text, page, format);
    let bv = chars_of(b.as_str());
    let c = if with_body_images {
        replace_image_placeholders(bv, map)
    } else {
        strip_markdown_images(bv)
    };
    trim_exec(&c)
}

/// The rendered book for an OCR payload: pages in index order, cleaned and joined,
/// split into chapters with unique file names and XHTML documents, images decoded
/// and named, the first image of the first page as the cover, and the resolved
/// metadata.
pub fn normalize_to_rendered_book(
    payload: &MistralOcrResponse,
    cfg: &ConvertConfig,
    metadata: &BookMetadata,
    source_pdf: &str,
    source_hash: &str,
) -> (r: Result<RenderedBook, BaegunError>)
    ensures
        ({
            let pages = payload.pages@;
            let order = page_order(pages);
            match extract_images_spec(pages, order, cfg.include_images) {
                Err(e) => r matches Err(err) && err.kind == ErrorKind::OcrSchema && err.message@ == e,
                Ok(st) => {
                    let cs = split_chapters_spec(book_markdown_spec(pages, cfg.table_format, cfg.include_images, st.map));
                    let lang = book_language(*cfg, *metadata);
                    if cs.len() == 0 {
                        r matches Err(err) && err.kind == ErrorKind::OcrSchema && err.message@ == no_content_message()
                    } else {
                        r matches Ok(book) && {
                            &&& book.title@ == (match metadata.title { Some(t) => t@, None => cs[0].0 })
                            &&& opt_view(book.author) == opt_view(metadata.author)
                            &&& book.language@ == lang
                            &&& opt_view(book.publisher) == opt_view(metadata.publisher)
                            &&& opt_view(book.description) == opt_view(metadata.description)
                            &&& strings_view(book.subjects@) == strings_view(metadata.subjects@)
                            &&& book.source_hash@ == source_hash@
                            &&& assets_view(book.images@) == st.images
                            &&& opt_view(book.cover_image) == cover_image_spec(pages, order)
                            &&& !book.fixed_layout
                            &&& book.page_progression_direction == PageProgressionDirection::LeftToRight
                            &&& book.chapters.len() == cs.len()
                            &&& forall|k: int| 0 <= k < cs.len() ==> chapter_view(#[trigger] book.chapters@[k]) == chapter_spec(
                                k as nat, cs[k].0, cs[k].1, chapter_slugs(cs, cs.len() as int).0[k], lang)
                        }
                    }
                },
            }
        }),
{
    broadcast use lemma_deep_view_chars;

    let keys = clone_keys(&payload.pages);
    let order = stable_order_by_key(&keys);
    let ghost ov = positions_view(order@);
    assert(ov == page_order(payload.pages@));
    let work = match extract_images(&payload.pages, &order, cfg.include_images) {
        Ok(w) => w,
        Err(e) => return Err(BaegunError::ocr_schema(e)),
    };
    let ghost st = work_view(work);
    let ghost mv = st.map;
    let mut texts: Vec<Vec<char>> = Vec::new();
    let mut p: usize = 0;
    while p < order.len()
        invariant
            p <= order.len(),
            ov == positions_view(order@),
            mv == pairs_view(work.map@),
            order.len() == payload.pages.len(),
            forall|m: int| 0 <= m < order.len() ==> #[trigger] order@[m] < payload.pages.len(),
            texts.deep_view() == page_texts(payload.pages@, ov, cfg.table_format, cfg.include_images, mv, p as int),
        decreases order.len() - p,
    {
        assert(ov[p as int] == order@[p as int] as int);
        let t = page_markdown(&payload.pages[order[p]], cfg.table_format, cfg.include_images, &work.map);
        if t.len() > 0 {
            let ghost old_t = texts.deep_view();
            assert(t.deep_view() == t@);
            texts.push(t);
            assert(texts.deep_view() =~= old_t.push(t@));
        }
        p += 1;
    }
    let sep = chars_of("\n\n");
    let full = join_all(&texts, &sep);
    let cs = split_chapters_chars(&full);
    let ghost csv = pairs_view(cs@);
    if cs.len() == 0 {
        return Err(BaegunError::ocr_schema(String::from_str("No readable content found after OCR normalization.")));
    }
    let language: String = match &metadata.language {
        Some(l) => l.clone(),
        None => cfg.language.clone(),
    };
    let lang_chars = chars_of(language.as_str());
    let mut chapters: Vec<RenderedChapter> = Vec::new();
    let mut seen: Vec<(Vec<char>, usize)> = Vec::new();
    let mut k: usize = 0;
    while k < cs.len()
        invariant
            k <= cs.len(),
            csv == pairs_view(cs@),
            seen.len() == k,
            chapters.len() == k,
            lang_chars@ == book_language(*cfg, *metadata),
            forall|j: int| 0 <= j < seen.len() ==> (#[trigger] seen@[j]).1 <= j + 1,
            counters_view(seen@) == chapter_slugs(csv, k as int).1,
            forall|j: int| 0 <= j < k ==> chapter_view(#[trigger] chapters@[j]) == chapter_spec(
                j as nat, csv[j].0, csv[j].1, chapter_slugs(csv, k as int).0[j], lang_chars@),
        decreases cs.len() - k,
    {
        let title_text = string_of(&cs[k].0);
        let base = chars_of(slugify(title_text.as_str()).as_str());
        let n = bump_slug_exec(&mut seen, &base);
        let unique = numbered_slug_exec(&base, n);
        let num = zero_padded_exec((k + 1) as u64, 3);
        let mut id = chars_of("chapter-");
        extend_chars(&mut id, &num);
        let mut file_name = id.clone();
        extend_str(&mut file_name, "-");
        extend_chars(&mut file_name, &unique);
        extend_str(&mut file_name, ".xhtml");
        let md_text = string_of(&cs[k].1);
        let html = render_markdown_to_html(md_text.as_str());
        let html_chars = chars_of(html.as_str());
        let xhtml = wrap_xhtml_document(&cs[k].0, &lang_chars, &html_chars);
        let chapter = RenderedChapter {
            id: string_of(&id),
            title: title_text,
            file_name: string_of(&file_name),
            markdown: md_text,
            xhtml: string_of(&xhtml),
        };
        let ghost prev = chapter_slugs(csv, k as int);
        proof {
            lemma_chapter_slugs_len(csv, k as int);
        }
        assert(chapter_slugs(csv, k + 1).0 == prev.0.push(unique@));
        assert(csv[k as int] == (cs@[k as int].0@, cs@[k as int].1@));
        chapters.push(chapter);
        assert forall|j: int| 0 <= j < k + 1 implies chapter_view(#[trigger] chapters@[j]) == chapter_spec(
            j as nat, csv[j].0, csv[j].1, chapter_slugs(csv, k + 1).0[j], lang_chars@) by {
            if j < k {
                assert(chapter_slugs(csv, k + 1).0[j] == prev.0[j]);
            }
        }
        k += 1;
    }
    let title: String = match &metadata.title {
        Some(t) => t.clone(),
        None => string_of(&cs[0].0),
    };
    let cover_image = cover_name(&payload.pages, &order);
    Ok(RenderedBook {
        title,
        author: clone_opt(&metadata.author),
        language,
        publisher: clone_opt(&metadata.publisher),
        description: clone_opt(&metadata.description),
        subjects: crate::text::clone_strings(&metadata.subjects),
        source_hash: String::from_str(source_hash),
        chapters,
        images: work.images,
        cover_image,
        fixed_layout: false,
        page_progression_direction: PageProgressionDirection::LeftToRight,
    })
}

fn cover_name(pages: &Vec<OcrPage>, order: &Vec<usize>) -> (r: Option<String>)
    requires
        forall|m: int| 0 <= m < order.len() ==> #[trigger] order@[m] < pages.len(),
    ensures
        opt_view(r) == cover_image_spec(pages@, positions_view(order@)),
{
    if order.len() == 0 {
        return None;
    }
    let first = &pages[order[0]];
    let ghost ov = positions_view(order@);
    assert(ov[0] == order@[0] as int);
    let mut k: usize = 0;
    while k < first.images.len()
        invariant
            k <= first.images.len(),
            order.len() > 0,
            ov == positions_view(order@),
            *first == pages@[ov[0]],
            first_payload(first.images@, 0) == first_payload(first.images@, k as int),
        decreases first.images.len() - k,
    {
        if first.images[k].image_base64.is_some() {
            assert(first_payload(first.images@, k as int) == Some(k as int));
            let id = chars_of(first.images[k].id.as_str());
            let name = sanitize_asset_name(&id);
            return Some(string_of(&name));
        }
        k += 1;
    }
    None
}

} // verus!
