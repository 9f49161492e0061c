//! Book metadata: cleaning values, reading a PDF's Info dictionary and XMP
//! packet, and merging explicit settings, PDF metadata and generated metadata.
use vstd::prelude::*;
use crate::models::{BookMetadata, ConvertConfig, MetadataView};
use crate::patterns::{
    group_exec, group_text, piece_view, regex_captures, regex_escape, regex_escape_spec,
    regex_first_captures, regex_match_pieces, regex_pieces,
};
use crate::text::{
    chars_of, eq_ignore_case, eq_ignore_case_exec, eq_ignore_case_str, join, join_all, opt_view,
    string_from_utf16, string_from_utf8_lossy, utf16_decoded, utf8_lossy,
    split_class, split_class_exec, string_of, strings_view, trim, trim_exec, words, words_exec,
    is_ascii_ws, is_ascii_ws_exec, sub_chars, opt_chars, concat_str, replace_spec, replace_str,
    clone_opt,
    CharClass,
};

verus! {

// ---------------------------------------------------------------------------
// Cleaning values.
// ---------------------------------------------------------------------------

/// The placeholder that counts as no value.
pub open spec fn unknown_word() -> Seq<char> {
    seq!['u', 'n', 'k', 'n', 'o', 'w', 'n']
}

/// A metadata value with its white space runs collapsed to single spaces; nothing
/// when that is empty or reads `unknown` in any ASCII case.
pub open spec fn clean_value(s: Seq<char>) -> Option<Seq<char>> {
    let cleaned = join(words(s), seq![' ']);
    if cleaned.len() == 0 || eq_ignore_case(cleaned, unknown_word()) {
        None
    } else {
        Some(cleaned)
    }
}

pub fn clean_chars(v: &[char]) -> (r: Option<Vec<char>>)
    ensures
        opt_chars(r) == clean_value(v@),
{
    let parts = words_exec(v);
    let sep: Vec<char> = vec![' '];
    assert(sep@ == seq![' ']);
    let cleaned = join_all(&parts, &sep);
    proof {
        reveal_strlit("unknown");
        assert("unknown"@ == unknown_word());
    }
    if cleaned.len() == 0 || eq_ignore_case_str(&cleaned, "unknown") {
        None
    } else {
        Some(cleaned)
    }
}

/// Collapses white space in a metadata value; `None` when nothing meaningful is left.
pub fn clean_metadata_value(value: &str) -> (r: Option<String>)
    ensures
        opt_view(r) == clean_value(value@),
{
    let v = chars_of(value);
    match clean_chars(&v) {
        Some(c) => Some(string_of(&c)),
        None => None,
    }
}

/// The first value that is still present after cleaning, cleaned.
pub open spec fn first_clean(values: Seq<Option<Seq<char>>>) -> Option<Seq<char>>
    decreases values.len(),
{
    if values.len() == 0 {
        None
    } else {
        let here = match values[0] {
            Some(v) => clean_value(v),
            None => None,
        };
        match here {
            Some(c) => Some(c),
            None => first_clean(values.drop_first()),
        }
    }
}

pub open spec fn opt_views(values: Seq<Option<String>>) -> Seq<Option<Seq<char>>> {
    values.map_values(|o: Option<String>| opt_view(o))
}

/// The first of `values` that has a clean value.
pub fn first_non_empty(values: &Vec<Option<String>>) -> (r: Option<String>)
    ensures
        opt_view(r) == first_clean(opt_views(values@)),
{
    let ghost all = opt_views(values@);
    let mut i: usize = 0;
    assert(all.subrange(0, all.len() as int) == all);
    while i < values.len()
        invariant
            i <= values.len(),
            all == opt_views(values@),
            first_clean(all.subrange(i as int, all.len() as int)) == first_clean(all),
        decreases values.len() - i,
    {
        let ghost rest = all.subrange(i as int, all.len() as int);
        assert(rest[0] == opt_view(values@[i as int]));
        assert(rest.drop_first() == all.subrange(i as int + 1, all.len() as int));
        if let Some(v) = &values[i] {
            if let Some(c) = clean_metadata_value(v) {
                return Some(c);
            }
        }
        i += 1;
    }
    assert(all.subrange(i as int, all.len() as int).len() == 0);
    None
}

/// Whether an optional setting has no clean value.
pub fn missing_opt(value: &Option<String>) -> (r: bool)
    ensures
        r == (match opt_view(*value) {
            Some(v) => clean_value(v) is None,
            None => true,
        }),
{
    match value {
        Some(v) => clean_metadata_value(v).is_none(),
        None => true,
    }
}

/// The clean values among `parts`, in order.
pub open spec fn clean_all(parts: Seq<Seq<char>>) -> Seq<Seq<char>>
    decreases parts.len(),
{
    if parts.len() == 0 {
        seq![]
    } else {
        let r = clean_all(parts.drop_last());
        match clean_value(parts.last()) {
            Some(c) => r.push(c),
            None => r,
        }
    }
}

/// The keywords of a list separated by `,`, `;` or line feeds, each cleaned.
pub fn split_keywords(value: &str) -> (r: Vec<String>)
    ensures
        strings_view(r@) == clean_all(split_class(value@, CharClass::ListSeparator)),
{
    let v = chars_of(value);
    let parts = split_class_exec(&v, CharClass::ListSeparator);
    let ghost pv = parts.deep_view();
    let mut r: Vec<String> = Vec::new();
    let mut i: usize = 0;
    while i < parts.len()
        invariant
            i <= parts.len(),
            pv == parts.deep_view(),
            strings_view(r@) == clean_all(pv.take(i as int)),
        decreases parts.len() - i,
    {
        assert(pv.take(i as int + 1).drop_last() == pv.take(i as int));
        assert(pv.take(i as int + 1).last() == parts[i as int]@);
        if let Some(c) = clean_chars(&parts[i]) {
            let ghost before = r@;
            r.push(string_of(&c));
            assert(strings_view(r@) =~= strings_view(before).push(c@));
        }
        i += 1;
    }
    assert(pv.take(parts.len() as int) == pv);
    r
}

// ---------------------------------------------------------------------------
// Subjects.
// ---------------------------------------------------------------------------

/// Whether `subjects` already holds `s`, ignoring ASCII case.
pub open spec fn has_subject(subjects: Seq<Seq<char>>, s: Seq<char>) -> bool {
    exists|k: int| 0 <= k < subjects.len() && eq_ignore_case(#[trigger] subjects[k], s)
}

/// `subjects` followed by the clean values of `new_subjects` that it does not yet
/// hold (ignoring ASCII case), first occurrence kept.
pub open spec fn push_subjects_spec(subjects: Seq<Seq<char>>, new_subjects: Seq<Seq<char>>) -> Seq<
    Seq<char>,
>
    decreases new_subjects.len(),
{
    if new_subjects.len() == 0 {
        subjects
    } else {
        let acc = push_subjects_spec(subjects, new_subjects.drop_last());
        match clean_value(new_subjects.last()) {
            Some(c) => if has_subject(acc, c) {
                acc
            } else {
                acc.push(c)
            },
            None => acc,
        }
    }
}

/// No two subjects are equal ignoring ASCII case.
pub open spec fn subjects_distinct(s: Seq<Seq<char>>) -> bool {
    forall|i: int, j: int| 0 <= i < j < s.len() ==> !eq_ignore_case(#[trigger] s[i], #[trigger] s[j])
}

fn has_subject_exec(subjects: &Vec<String>, c: &[char]) -> (r: bool)
    ensures
        r == has_subject(strings_view(subjects@), c@),
{
    let ghost sv = strings_view(subjects@);
    let mut j: usize = 0;
    while j < subjects.len()
        invariant
            j <= subjects.len(),
            sv == strings_view(subjects@),
            forall|k: int| 0 <= k < j ==> !eq_ignore_case(#[trigger] sv[k], c@),
        decreases subjects.len() - j,
    {
        let s = chars_of(subjects[j].as_str());
        if eq_ignore_case_exec(&s, c) {
            assert(sv[j as int] == s@);
            return true;
        }
        j += 1;
    }
    false
}

/// Adds the clean values of `new_subjects` that `subjects` does not hold yet,
/// ignoring ASCII case.
pub fn push_subjects(subjects: &mut Vec<String>, new_subjects: Vec<String>)
    ensures
        strings_view(final(subjects)@) == push_subjects_spec(
            strings_view(old(subjects)@),
            strings_view(new_subjects@),
        ),
{
    let ghost start = strings_view(subjects@);
    let ghost nv = strings_view(new_subjects@);
    let mut i: usize = 0;
    while i < new_subjects.len()
        invariant
            i <= new_subjects.len(),
            nv == strings_view(new_subjects@),
            strings_view(subjects@) == push_subjects_spec(start, nv.take(i as int)),
        decreases new_subjects.len() - i,
    {
        assert(nv.take(i as int + 1).drop_last() == nv.take(i as int));
        assert(nv.take(i as int + 1).last() == new_subjects[i as int]@);
        let v = chars_of(new_subjects[i].as_str());
        if let Some(c) = clean_chars(&v) {
            if !has_subject_exec(subjects, &c) {
                let ghost before = subjects@;
                subjects.push(string_of(&c));
                assert(strings_view(subjects@) =~= strings_view(before).push(c@));
            }
        }
        i += 1;
    }
    assert(nv.take(new_subjects.len() as int) == nv);
}

/// Merging subjects keeps what was there, in place.
pub proof fn lemma_push_subjects_prefix(subjects: Seq<Seq<char>>, new_subjects: Seq<Seq<char>>)
    ensures
        push_subjects_spec(subjects, new_subjects).len() >= subjects.len(),
        push_subjects_spec(subjects, new_subjects).take(subjects.len() as int) == subjects,
    decreases new_subjects.len(),
{
    if new_subjects.len() > 0 {
        lemma_push_subjects_prefix(subjects, new_subjects.drop_last());
        let acc = push_subjects_spec(subjects, new_subjects.drop_last());
        assert(acc.push(new_subjects.last()).take(subjects.len() as int) == acc.take(
            subjects.len() as int,
        ));
        if let Some(c) = clean_value(new_subjects.last()) {
            assert(acc.push(c).take(subjects.len() as int) == acc.take(subjects.len() as int));
        }
    }
}

/// Merging subjects never introduces two entries that differ only in ASCII case.
pub proof fn lemma_push_subjects_distinct(subjects: Seq<Seq<char>>, new_subjects: Seq<Seq<char>>)
    requires
        subjects_distinct(subjects),
    ensures
        subjects_distinct(push_subjects_spec(subjects, new_subjects)),
    decreases new_subjects.len(),
{
    if new_subjects.len() > 0 {
        lemma_push_subjects_distinct(subjects, new_subjects.drop_last());
        let acc = push_subjects_spec(subjects, new_subjects.drop_last());
        if let Some(c) = clean_value(new_subjects.last()) {
            if !has_subject(acc, c) {
                let r = acc.push(c);
                assert forall|i: int, j: int| 0 <= i < j < r.len() implies !eq_ignore_case(
                    #[trigger] r[i],
                    #[trigger] r[j],
                ) by {
                    if j == acc.len() {
                        assert(r[i] == acc[i]);
                        if eq_ignore_case(acc[i], c) {
                            assert(has_subject(acc, c));
                        }
                    } else {
                        assert(r[i] == acc[i] && r[j] == acc[j]);
                    }
                }
            }
        }
    }
}

/// Each subject that merging appends is the clean value of one of the new subjects.
pub proof fn lemma_push_subjects_from_new(subjects: Seq<Seq<char>>, new_subjects: Seq<Seq<char>>, i: int)
    requires
        subjects.len() <= i < push_subjects_spec(subjects, new_subjects).len(),
    ensures
        exists|k: int| 0 <= k < new_subjects.len() && #[trigger] clean_value(new_subjects[k]) == Some(
            push_subjects_spec(subjects, new_subjects)[i],
        ),
    decreases new_subjects.len(),
{
    lemma_push_subjects_prefix(subjects, new_subjects.drop_last());
    let acc = push_subjects_spec(subjects, new_subjects.drop_last());
    let r = push_subjects_spec(subjects, new_subjects);
    if i < acc.len() {
        lemma_push_subjects_from_new(subjects, new_subjects.drop_last(), i);
        let k = choose|k: int| 0 <= k < new_subjects.drop_last().len() && #[trigger] clean_value(
            new_subjects.drop_last()[k],
        ) == Some(acc[i]);
        assert(new_subjects.drop_last()[k] == new_subjects[k]);
        assert(r[i] == acc[i]);
        assert(clean_value(new_subjects[k]) == Some(r[i]));
    } else {
        let k = new_subjects.len() - 1;
        assert(new_subjects.last() == new_subjects[k]);
        assert(clean_value(new_subjects[k]) == Some(r[i]));
    }
}

/// Every new subject with a clean value ends up present, ignoring ASCII case.
pub proof fn lemma_push_subjects_covers(subjects: Seq<Seq<char>>, new_subjects: Seq<Seq<char>>, k: int)
    requires
        0 <= k < new_subjects.len(),
        clean_value(new_subjects[k]) is Some,
    ensures
        has_subject(push_subjects_spec(subjects, new_subjects), clean_value(new_subjects[k])->0),
    decreases new_subjects.len(),
{
    let acc = push_subjects_spec(subjects, new_subjects.drop_last());
    let c = clean_value(new_subjects[k])->0;
    let r = push_subjects_spec(subjects, new_subjects);
    lemma_push_subjects_prefix(acc, seq![]);
    if k < new_subjects.len() - 1 {
        lemma_push_subjects_covers(subjects, new_subjects.drop_last(), k);
        assert(new_subjects.drop_last()[k] == new_subjects[k]);
        let w = choose|w: int| 0 <= w < acc.len() && eq_ignore_case(#[trigger] acc[w], c);
        assert(r[w] == acc[w]);
    } else {
        if has_subject(acc, c) {
            let w = choose|w: int| 0 <= w < acc.len() && eq_ignore_case(#[trigger] acc[w], c);
            assert(r[w] == acc[w]);
        } else {
            assert(r[acc.len() as int] == c);
        }
    }
}


// ---------------------------------------------------------------------------
// PDF strings.
// ---------------------------------------------------------------------------

pub open spec fn is_eol_byte(b: u8) -> bool {
    b == 13 || b == 10
}

pub open spec fn is_octal_byte(b: u8) -> bool {
    48 <= b && b <= 55
}

/// The byte that a one-character escape stands for: `\n` `\r` `\t` `\b` `\f` are
/// control characters, any other escaped byte stands for itself.
pub open spec fn escape_byte(c: u8) -> u8 {
    if c == 110 {
        10
    } else if c == 114 {
        13
    } else if c == 116 {
        9
    } else if c == 98 {
        8
    } else if c == 102 {
        12
    } else {
        c
    }
}

/// The last index of the run of at most three octal digits that starts at `start`.
pub open spec fn octal_run_end(b: Seq<u8>, start: int) -> int {
    if start + 1 < b.len() && is_octal_byte(b[start + 1]) {
        if start + 2 < b.len() && is_octal_byte(b[start + 2]) {
            start + 2
        } else {
            start + 1
        }
    } else {
        start
    }
}

/// The value of the octal digits `b[start ..= end]`.
pub open spec fn octal_value(b: Seq<u8>, start: int, end: int) -> int {
    let d0 = b[start] - 48;
    if end == start {
        d0
    } else if end == start + 1 {
        d0 * 8 + (b[start + 1] - 48)
    } else {
        d0 * 64 + (b[start + 1] - 48) * 8 + (b[start + 2] - 48)
    }
}

/// The decoded bytes of a PDF literal string body from index `i` on. A backslash
/// starts an escape; a backslash before line ends drops the whole run of line
/// ends; up to three octal digits give one byte (dropped above 255); a trailing
/// backslash ends the string.
pub open spec fn decode_literal_from(b: Seq<u8>, i: int) -> Seq<u8>
    decreases b.len() - i, 1int,
{
    if i < 0 || i >= b.len() {
        seq![]
    } else if b[i] != 92 {
        seq![b[i]] + decode_literal_from(b, i + 1)
    } else if i + 1 >= b.len() {
        seq![]
    } else {
        let c = b[i + 1];
        if is_eol_byte(c) {
            decode_after_eol(b, i + 1)
        } else if is_octal_byte(c) {
            let e = octal_run_end(b, i + 1);
            let v = octal_value(b, i + 1, e);
            (if v <= 255 {
                seq![v as u8]
            } else {
                seq![]
            }) + decode_literal_from(b, e + 1)
        } else {
            seq![escape_byte(c)] + decode_literal_from(b, i + 2)
        }
    }
}

/// Decoding resumes after the run of line ends that reaches index `j`.
pub open spec fn decode_after_eol(b: Seq<u8>, j: int) -> Seq<u8>
    decreases b.len() - j, 0int,
{
    if 0 <= j && j + 1 < b.len() && is_eol_byte(b[j + 1]) {
        decode_after_eol(b, j + 1)
    } else if j + 1 <= b.len() {
        decode_literal_from(b, j + 1)
    } else {
        seq![]
    }
}

/// The text of a PDF literal string body.
pub open spec fn decode_literal_spec(raw: Seq<char>) -> Seq<char> {
    utf8_lossy(decode_literal_from(vstd::utf8::encode_utf8(raw), 0))
}

fn decode_literal_bytes(bytes: &[u8]) -> (r: Vec<u8>)
    ensures
        r@ == decode_literal_from(bytes@, 0),
{
    let ghost b = bytes@;
    let mut decoded: Vec<u8> = Vec::new();
    let mut index: usize = 0;
    while index < bytes.len()
        invariant
            index <= bytes.len(),
            b == bytes@,
            decoded@ + decode_literal_from(b, index as int) == decode_literal_from(b, 0),
        decreases bytes.len() - index,
    {
        let ghost before = decoded@;
        if bytes[index] != 92 {
            decoded.push(bytes[index]);
            assert(decoded@ + decode_literal_from(b, index as int + 1) =~= before
                + decode_literal_from(b, index as int));
            index += 1;
        } else if index + 1 >= bytes.len() {
            index = bytes.len();
        } else {
            let c = bytes[index + 1];
            if c == 13 || c == 10 {
                let mut j = index + 1;
                while j + 1 < bytes.len() && (bytes[j + 1] == 13 || bytes[j + 1] == 10)
                    invariant
                        index < j < bytes.len(),
                        b == bytes@,
                        decode_after_eol(b, j as int) == decode_literal_from(b, index as int),
                    decreases bytes.len() - j,
                {
                    j += 1;
                }
                index = j + 1;
            } else if 48 <= c && c <= 55 {
                let start = index + 1;
                let mut end = start;
                let mut value: u32 = (c - 48) as u32;
                if end + 1 < bytes.len() && 48 <= bytes[end + 1] && bytes[end + 1] <= 55 {
                    end += 1;
                    value = value * 8 + (bytes[end] - 48) as u32;
                    if end + 1 < bytes.len() && 48 <= bytes[end + 1] && bytes[end + 1] <= 55 {
                        end += 1;
                        value = value * 8 + (bytes[end] - 48) as u32;
                    }
                }
                assert(end as int == octal_run_end(b, start as int));
                assert(value as int == octal_value(b, start as int, end as int));
                if value <= 255 {
                    decoded.push(value as u8);
                }
                assert(decoded@ + decode_literal_from(b, end as int + 1) =~= before
                    + decode_literal_from(b, index as int));
                index = end + 1;
            } else {
                let e: u8 = if c == 110 {
                    10
                } else if c == 114 {
                    13
                } else if c == 116 {
                    9
                } else if c == 98 {
                    8
                } else if c == 102 {
                    12
                } else {
                    c
                };
                decoded.push(e);
                assert(decoded@ + decode_literal_from(b, index as int + 2) =~= before
                    + decode_literal_from(b, index as int));
                index += 2;
            }
        }
    }
    assert(decoded@ + decode_literal_from(b, index as int) == decoded@ + Seq::<u8>::empty());
    assert(decoded@ + Seq::<u8>::empty() == decoded@);
    decoded
}

/// Decodes the body of a PDF literal string `( ... )`.
pub fn decode_pdf_literal_string(raw: &str) -> (r: String)
    ensures
        r@ == decode_literal_spec(raw@),
{
    let bytes = raw.as_bytes();
    let decoded = decode_literal_bytes(bytes);
    string_from_utf8_lossy(&decoded)
}


/// `s` without its ASCII white space.
pub open spec fn drop_ascii_ws(s: Seq<char>) -> Seq<char>
    decreases s.len(),
{
    if s.len() == 0 {
        seq![]
    } else if is_ascii_ws(s.last()) {
        drop_ascii_ws(s.drop_last())
    } else {
        drop_ascii_ws(s.drop_last()).push(s.last())
    }
}

pub open spec fn all_ascii(s: Seq<char>) -> bool {
    forall|i: int| 0 <= i < s.len() ==> (#[trigger] s[i] as u32) < 128
}

/// The value of a hexadecimal digit.
pub open spec fn hex_digit(c: char) -> Option<int> {
    if '0' <= c && c <= '9' {
        Some(c as int - '0' as int)
    } else if 'a' <= c && c <= 'f' {
        Some(c as int - 'a' as int + 10)
    } else if 'A' <= c && c <= 'F' {
        Some(c as int - 'A' as int + 10)
    } else {
        None
    }
}

/// `u8::from_str_radix` of a two-character string in base 16: two digits, or a
/// plus sign and one digit.
pub open spec fn hex_pair(a: char, b: char) -> Option<u8> {
    if a == '+' {
        match hex_digit(b) {
            Some(y) => Some(y as u8),
            None => None,
        }
    } else {
        match (hex_digit(a), hex_digit(b)) {
            (Some(x), Some(y)) => Some((x * 16 + y) as u8),
            _ => None,
        }
    }
}

/// The bytes of the character pairs of `p` from index `i` on.
pub open spec fn hex_bytes_from(p: Seq<char>, i: int) -> Option<Seq<u8>>
    decreases p.len() - i,
{
    if i < 0 || i + 1 >= p.len() {
        Some(seq![])
    } else {
        match hex_pair(p[i], p[i + 1]) {
            None => None,
            Some(v) => match hex_bytes_from(p, i + 2) {
                None => None,
                Some(rest) => Some(seq![v] + rest),
            },
        }
    }
}

/// Big-endian UTF-16 code units from byte pairs, from index `i` on; a lone
/// trailing byte is dropped.
pub open spec fn be_units_from(b: Seq<u8>, i: int) -> Seq<u16>
    decreases b.len() - i,
{
    if i < 0 || i + 1 >= b.len() {
        seq![]
    } else {
        seq![(b[i] as int * 256 + b[i + 1] as int) as u16] + be_units_from(b, i + 2)
    }
}

/// The text of a PDF hexadecimal string body: white space ignored, an odd digit
/// count padded with `0`; bytes starting with the mark FE FF are UTF-16BE.
pub open spec fn decode_hex_spec(raw: Seq<char>) -> Option<Seq<char>> {
    let f = drop_ascii_ws(raw);
    let p = if f.len() % 2 == 1 {
        f.push('0')
    } else {
        f
    };
    if !all_ascii(f) {
        None
    } else {
        match hex_bytes_from(p, 0) {
            None => None,
            Some(b) => if b.len() >= 2 && b[0] == 0xFE && b[1] == 0xFF {
                utf16_decoded(be_units_from(b, 2))
            } else {
                Some(utf8_lossy(b))
            },
        }
    }
}

fn hex_digit_exec(c: char) -> (r: Option<u8>)
    ensures
        match hex_digit(c) {
            Some(v) => r == Some(v as u8) && 0 <= v < 16,
            None => r is None,
        },
{
    if '0' <= c && c <= '9' {
        Some((c as u8) - 48)
    } else if 'a' <= c && c <= 'f' {
        Some((c as u8) - 87)
    } else if 'A' <= c && c <= 'F' {
        Some((c as u8) - 55)
    } else {
        None
    }
}

fn hex_pair_exec(a: char, b: char) -> (r: Option<u8>)
    ensures
        r == hex_pair(a, b),
{
    if a == '+' {
        hex_digit_exec(b)
    } else {
        match (hex_digit_exec(a), hex_digit_exec(b)) {
            (Some(x), Some(y)) => Some(x * 16 + y),
            _ => None,
        }
    }
}

/// Decodes the body of a PDF hexadecimal string `< ... >`.
pub fn decode_pdf_hex_string(raw: &[char]) -> (r: Option<String>)
    ensures
        opt_view(r) == decode_hex_spec(raw@),
{
    let mut hex: Vec<char> = Vec::new();
    let mut i: usize = 0;
    while i < raw.len()
        invariant
            i <= raw.len(),
            hex@ == drop_ascii_ws(raw@.take(i as int)),
        decreases raw.len() - i,
    {
        assert(raw@.take(i as int + 1).drop_last() == raw@.take(i as int));
        if !is_ascii_ws_exec(raw[i]) {
            hex.push(raw[i]);
        }
        i += 1;
    }
    assert(raw@.take(raw.len() as int) == raw@);
    let ghost f = hex@;
    let mut k: usize = 0;
    while k < hex.len()
        invariant
            k <= hex.len(),
            hex@ == f,
            f == drop_ascii_ws(raw@),
            forall|j: int| 0 <= j < k ==> (#[trigger] hex@[j] as u32) < 128,
        decreases hex.len() - k,
    {
        if (hex[k] as u32) >= 128 {
            assert(!all_ascii(f)) by {
                assert((f[k as int] as u32) >= 128);
            }
            return None;
        }
        k += 1;
    }
    assert(all_ascii(f));
    if hex.len() % 2 == 1 {
        hex.push('0');
    }
    let ghost p = hex@;
    let mut bytes: Vec<u8> = Vec::new();
    let mut i: usize = 0;
    while i + 1 < hex.len()
        invariant
            p == hex@,
            f == drop_ascii_ws(raw@),
            all_ascii(f),
            p == (if f.len() % 2 == 1 {
                f.push('0')
            } else {
                f
            }),
            i <= hex.len(),
            i % 2 == 0,
            hex.len() % 2 == 0,
            hex_bytes_from(p, 0) == (match hex_bytes_from(p, i as int) {
                None => None,
                Some(rest) => Some(bytes@ + rest),
            }),
        decreases hex.len() - i,
    {
        match hex_pair_exec(hex[i], hex[i + 1]) {
            None => {
                return None;
            },
            Some(v) => {
                let ghost before = bytes@;
                bytes.push(v);
                proof {
                    if let Some(rest) = hex_bytes_from(p, i as int + 2) {
                        assert(bytes@ + rest =~= before + (seq![v] + rest));
                    }
                }
            },
        }
        i += 2;
    }
    assert(hex_bytes_from(p, i as int) == Some(Seq::<u8>::empty()));
    assert(bytes@ + Seq::<u8>::empty() == bytes@);
    if bytes.len() >= 2 && bytes[0] == 0xFE && bytes[1] == 0xFF {
        let ghost b = bytes@;
        let mut units: Vec<u16> = Vec::new();
        let mut j: usize = 2;
        while bytes.len() - j >= 2
            invariant
                b == bytes@,
                2 <= j <= bytes.len(),
                be_units_from(b, 2) == units@ + be_units_from(b, j as int),
            decreases bytes.len() - j,
        {
            let u: u16 = (bytes[j] as u16) * 256 + (bytes[j + 1] as u16);
            let ghost before = units@;
            units.push(u);
            assert(units@ + be_units_from(b, j as int + 2) =~= before + be_units_from(b, j as int));
            j += 2;
        }
        assert(units@ + be_units_from(b, j as int) =~= units@);
        return string_from_utf16(&units);
    }
    Some(string_from_utf8_lossy(&bytes))
}

/// The text of a PDF string token, literal `( ... )` or hexadecimal `< ... >`;
/// `None` for anything else.
pub open spec fn decode_pdf_string_spec(raw: Seq<char>) -> Option<Seq<char>> {
    if raw.len() >= 2 && raw[0] == '(' && raw.last() == ')' {
        Some(decode_literal_spec(raw.subrange(1, raw.len() - 1)))
    } else if raw.len() >= 2 && raw[0] == '<' && raw.last() == '>' {
        decode_hex_spec(raw.subrange(1, raw.len() - 1))
    } else {
        None
    }
}

/// Decodes a PDF string token.
pub fn decode_pdf_string(raw: &str) -> (r: Option<String>)
    ensures
        opt_view(r) == decode_pdf_string_spec(raw@),
{
    let v = chars_of(raw);
    let n = v.len();
    if n >= 2 && v[0] == '(' && v[n - 1] == ')' {
        let inner = string_of(&sub_chars(&v, 1, n - 1));
        Some(decode_pdf_literal_string(inner.as_str()))
    } else if n >= 2 && v[0] == '<' && v[n - 1] == '>' {
        decode_pdf_hex_string(&sub_chars(&v, 1, n - 1))
    } else {
        None
    }
}


// ---------------------------------------------------------------------------
// XML values.
// ---------------------------------------------------------------------------

/// The five predefined XML entities replaced by their characters, `&amp;` last.
pub open spec fn xml_unescape_spec(s: Seq<char>) -> Seq<char> {
    let a = replace_spec(s, "&lt;"@, "<"@);
    let b = replace_spec(a, "&gt;"@, ">"@);
    let c = replace_spec(b, "&quot;"@, "\""@);
    let d = replace_spec(c, "&apos;"@, "'"@);
    replace_spec(d, "&amp;"@, "&"@)
}

pub fn xml_unescape(value: &str) -> (r: String)
    ensures
        r@ == xml_unescape_spec(value@),
{
    proof {
        reveal_strlit("&lt;");
        reveal_strlit("&gt;");
        reveal_strlit("&quot;");
        reveal_strlit("&apos;");
        reveal_strlit("&amp;");
    }
    let a = replace_str(value, "&lt;", "<");
    let b = replace_str(a.as_str(), "&gt;", ">");
    let c = replace_str(b.as_str(), "&quot;", "\"");
    let d = replace_str(c.as_str(), "&apos;", "'");
    replace_str(d.as_str(), "&amp;", "&")
}

/// An XML text value: entities decoded, then cleaned.
pub open spec fn xml_value_spec(raw: Seq<char>) -> Option<Seq<char>> {
    clean_value(xml_unescape_spec(raw))
}

/// Decodes and cleans the text captured from an XMP element.
pub fn xml_text_value(raw: &str) -> (r: Option<String>)
    ensures
        opt_view(r) == xml_value_spec(raw@),
{
    let u = xml_unescape(raw);
    clean_metadata_value(u.as_str())
}

/// A PDF Info value: the string token decoded, then cleaned.
pub open spec fn info_value_spec(raw: Seq<char>) -> Option<Seq<char>> {
    match decode_pdf_string_spec(raw) {
        Some(v) => clean_value(v),
        None => None,
    }
}

/// Decodes and cleans a PDF Info string token.
pub fn pdf_info_value(raw: &str) -> (r: Option<String>)
    ensures
        opt_view(r) == info_value_spec(raw@),
{
    match decode_pdf_string(raw) {
        Some(v) => clean_metadata_value(v.as_str()),
        None => None,
    }
}

// ---------------------------------------------------------------------------
// Finding metadata in the PDF's text.
// ---------------------------------------------------------------------------

/// `/Key` followed by a literal or hexadecimal string.
pub open spec fn pdf_info_pattern(key: Seq<char>) -> Seq<char> {
    "/"@ + regex_escape_spec(key) + "\\s*(\\((?:\\\\.|[^\\\\)])*\\)|<[^>]+>)"@
}

/// The cleaned value of the Info entry `key` at its first occurrence.
pub open spec fn pdf_info_spec(text: Seq<char>, key: Seq<char>) -> Option<Seq<char>> {
    match regex_first_captures(pdf_info_pattern(key), text) {
        Some(g) => match group_text(g, 1) {
            Some(raw) => info_value_spec(raw),
            None => None,
        },
        None => None,
    }
}

fn find_pdf_info_string(pdf_text: &str, key: &str) -> (r: Option<String>)
    ensures
        opt_view(r) == pdf_info_spec(pdf_text@, key@),
{
    let escaped = regex_escape(key);
    let head = concat_str("/", escaped.as_str());
    let pattern = concat_str(head.as_str(), "\\s*(\\((?:\\\\.|[^\\\\)])*\\)|<[^>]+>)");
    match regex_captures(pattern.as_str(), pdf_text) {
        Some(g) => match group_exec(&g, 1) {
            Some(raw) => pdf_info_value(string_of(&raw).as_str()),
            None => None,
        },
        None => None,
    }
}

/// An XMP element `tag`, optionally holding an `rdf:Alt`, `rdf:Seq` or `rdf:Bag`
/// with a first `rdf:li`, and the text that follows.
pub open spec fn xml_text_pattern(tag: Seq<char>) -> Seq<char> {
    "(?s)<"@ + regex_escape_spec(tag)
        + "(?:\\s[^>]*)?>\\s*(?:(?:<rdf:(?:Alt|Seq|Bag)(?:\\s[^>]*)?>\\s*)?<rdf:li(?:\\s[^>]*)?>)?\\s*([^<]+)"@
}

/// The cleaned text of the first XMP element `tag`.
pub open spec fn xml_text_spec(text: Seq<char>, tag: Seq<char>) -> Option<Seq<char>> {
    match regex_first_captures(xml_text_pattern(tag), text) {
        Some(g) => match group_text(g, 1) {
            Some(raw) => xml_value_spec(raw),
            None => None,
        },
        None => None,
    }
}

fn find_xml_text(document: &str, tag: &str) -> (r: Option<String>)
    ensures
        opt_view(r) == xml_text_spec(document@, tag@),
{
    let escaped = regex_escape(tag);
    let head = concat_str("(?s)<", escaped.as_str());
    let pattern = concat_str(
        head.as_str(),
        "(?:\\s[^>]*)?>\\s*(?:(?:<rdf:(?:Alt|Seq|Bag)(?:\\s[^>]*)?>\\s*)?<rdf:li(?:\\s[^>]*)?>)?\\s*([^<]+)",
    );
    match regex_captures(pattern.as_str(), document) {
        Some(g) => match group_exec(&g, 1) {
            Some(raw) => xml_text_value(string_of(&raw).as_str()),
            None => None,
        },
        None => None,
    }
}

/// The whole XMP element `tag`, its content captured.
pub open spec fn xml_section_pattern(tag: Seq<char>) -> Seq<char> {
    "(?s)<"@ + regex_escape_spec(tag) + "(?:\\s[^>]*)?>(.*?)</"@ + regex_escape_spec(tag) + ">"@
}

/// One `rdf:li` item, its content captured.
pub open spec fn xml_item_pattern() -> Seq<char> {
    "(?s)<rdf:li(?:\\s[^>]*)?>(.*?)</rdf:li>"@
}

/// The cleaned contents of the items, in order, those without a clean value left out.
pub open spec fn items_from_pieces(ps: Seq<(Seq<char>, Seq<Option<Seq<char>>>)>) -> Seq<Seq<char>>
    decreases ps.len(),
{
    if ps.len() == 0 {
        seq![]
    } else {
        let r = items_from_pieces(ps.drop_last());
        match group_text(ps.last().1, 1) {
            Some(raw) => match xml_value_spec(raw) {
                Some(c) => r.push(c),
                None => r,
            },
            None => r,
        }
    }
}

/// The cleaned items of the first XMP element `tag`.
pub open spec fn xml_bag_spec(text: Seq<char>, tag: Seq<char>) -> Seq<Seq<char>> {
    match regex_first_captures(xml_section_pattern(tag), text) {
        Some(g) => match group_text(g, 1) {
            Some(section) => match regex_pieces(xml_item_pattern(), section) {
                Some(p) => items_from_pieces(p.0),
                None => seq![],
            },
            None => seq![],
        },
        None => seq![],
    }
}

/// The cleaned item contents of successive `rdf:li` matches.
pub fn bag_items_from_pieces(pieces: &Vec<(String, Vec<Option<String>>)>) -> (r: Vec<String>)
    ensures
        strings_view(r@) == items_from_pieces(
            pieces@.map_values(|x: (String, Vec<Option<String>>)| piece_view(x)),
        ),
{
    let ghost pv = pieces@.map_values(|x: (String, Vec<Option<String>>)| piece_view(x));
    let mut r: Vec<String> = Vec::new();
    let mut i: usize = 0;
    while i < pieces.len()
        invariant
            i <= pieces.len(),
            pv == pieces@.map_values(|x: (String, Vec<Option<String>>)| piece_view(x)),
            strings_view(r@) == items_from_pieces(pv.take(i as int)),
        decreases pieces.len() - i,
    {
        assert(pv.take(i as int + 1).drop_last() == pv.take(i as int));
        assert(pv.take(i as int + 1).last() == piece_view(pieces@[i as int]));
        if let Some(raw) = group_exec(&pieces[i].1, 1) {
            if let Some(c) = xml_text_value(string_of(&raw).as_str()) {
                let ghost before = r@;
                r.push(c);
                assert(strings_view(r@) =~= strings_view(before).push(r@.last()@));
            }
        }
        i += 1;
    }
    assert(pv.take(pieces.len() as int) == pv);
    r
}

fn find_xml_bag_items(document: &str, tag: &str) -> (r: Vec<String>)
    ensures
        strings_view(r@) == xml_bag_spec(document@, tag@),
{
    let escaped = regex_escape(tag);
    let a = concat_str("(?s)<", escaped.as_str());
    let b = concat_str(a.as_str(), "(?:\\s[^>]*)?>(.*?)</");
    let c = concat_str(b.as_str(), escaped.as_str());
    let pattern = concat_str(c.as_str(), ">");
    let g = match regex_captures(pattern.as_str(), document) {
        Some(g) => g,
        None => {
            return Vec::new();
        },
    };
    let section = match group_exec(&g, 1) {
        Some(s) => string_of(&s),
        None => {
            return Vec::new();
        },
    };
    match regex_match_pieces("(?s)<rdf:li(?:\\s[^>]*)?>(.*?)</rdf:li>", section.as_str()) {
        Some(p) => bag_items_from_pieces(&p.0),
        None => Vec::new(),
    }
}

/// The Info entry `key`, else the XMP element `tag`.
pub open spec fn info_or_xml(text: Seq<char>, key: Seq<char>, tag: Seq<char>) -> Option<Seq<char>> {
    match pdf_info_spec(text, key) {
        Some(v) => Some(v),
        None => xml_text_spec(text, tag),
    }
}

fn find_info_or_xml(text: &str, key: &str, tag: &str) -> (r: Option<String>)
    ensures
        opt_view(r) == info_or_xml(text@, key@, tag@),
{
    match find_pdf_info_string(text, key) {
        Some(v) => Some(v),
        None => find_xml_text(text, tag),
    }
}

/// The metadata that a PDF's text declares: Info entries first, XMP elements
/// second; keywords and `dc:subject` items become subjects.
pub open spec fn pdf_metadata_spec(text: Seq<char>) -> MetadataView {
    let keywords = match info_or_xml(text, "Keywords"@, "pdf:Keywords"@) {
        Some(k) => push_subjects_spec(seq![], clean_all(split_class(k, CharClass::ListSeparator))),
        None => seq![],
    };
    MetadataView {
        title: info_or_xml(text, "Title"@, "dc:title"@),
        author: info_or_xml(text, "Author"@, "dc:creator"@),
        language: info_or_xml(text, "Lang"@, "dc:language"@),
        publisher: info_or_xml(text, "Publisher"@, "dc:publisher"@),
        description: info_or_xml(text, "Subject"@, "dc:description"@),
        subjects: push_subjects_spec(keywords, xml_bag_spec(text, "dc:subject"@)),
    }
}

/// Reads the metadata that the text of a PDF declares.
pub fn pdf_metadata_from_text(pdf_text: &str) -> (m: BookMetadata)
    ensures
        m@ == pdf_metadata_spec(pdf_text@),
{
    let mut subjects: Vec<String> = Vec::new();
    assert(strings_view(subjects@) =~= Seq::<Seq<char>>::empty());
    if let Some(keywords) = find_info_or_xml(pdf_text, "Keywords", "pdf:Keywords") {
        push_subjects(&mut subjects, split_keywords(keywords.as_str()));
    }
    push_subjects(&mut subjects, find_xml_bag_items(pdf_text, "dc:subject"));
    let m = BookMetadata {
        title: find_info_or_xml(pdf_text, "Title", "dc:title"),
        author: find_info_or_xml(pdf_text, "Author", "dc:creator"),
        language: find_info_or_xml(pdf_text, "Lang", "dc:language"),
        publisher: find_info_or_xml(pdf_text, "Publisher", "dc:publisher"),
        description: find_info_or_xml(pdf_text, "Subject", "dc:description"),
        subjects,
    };
    assert(m@ =~= pdf_metadata_spec(pdf_text@));
    m
}

/// Reads the metadata that a PDF file declares, its bytes read as lossy UTF-8.
pub fn extract_pdf_metadata(pdf_bytes: &[u8]) -> (m: BookMetadata)
    ensures
        m@ == pdf_metadata_spec(utf8_lossy(pdf_bytes@)),
{
    let text = string_from_utf8_lossy(pdf_bytes);
    pdf_metadata_from_text(text.as_str())
}


// ---------------------------------------------------------------------------
// Resolving the book's metadata.
// ---------------------------------------------------------------------------

pub open spec fn en_word() -> Seq<char> {
    seq!['e', 'n']
}

pub open spec fn missing_spec(o: Option<Seq<char>>) -> bool {
    match o {
        Some(v) => clean_value(v) is None,
        None => true,
    }
}

/// Whether generated metadata is worth asking for: a field is missing from both
/// the settings and the PDF, the language is the default `en` and the PDF names
/// none, or the PDF has no description or no subjects.
pub open spec fn needs_generation_spec(cfg: ConvertConfig, pdf: MetadataView) -> bool {
    ||| missing_spec(opt_view(cfg.title)) && pdf.title is None
    ||| missing_spec(opt_view(cfg.author)) && pdf.author is None
    ||| missing_spec(opt_view(cfg.publisher)) && pdf.publisher is None
    ||| eq_ignore_case(trim(cfg.language@), en_word()) && pdf.language is None
    ||| pdf.description is None
    ||| pdf.subjects.len() == 0
}

/// Whether the settings and the PDF leave metadata to be generated.
pub fn missing_metadata(cfg: &ConvertConfig, pdf_metadata: &BookMetadata) -> (r: bool)
    ensures
        r == needs_generation_spec(*cfg, pdf_metadata@),
{
    proof {
        reveal_strlit("en");
        assert("en"@ == en_word());
    }
    let language = trim_exec(&chars_of(cfg.language.as_str()));
    (missing_opt(&cfg.title) && pdf_metadata.title.is_none())
        || (missing_opt(&cfg.author) && pdf_metadata.author.is_none())
        || (missing_opt(&cfg.publisher) && pdf_metadata.publisher.is_none())
        || (eq_ignore_case_str(&language, "en") && pdf_metadata.language.is_none())
        || pdf_metadata.description.is_none()
        || pdf_metadata.subjects.len() == 0
}

/// The language: a configured language other than `en` wins; otherwise the PDF's,
/// the generated one, and the configured one, in that order.
pub open spec fn resolve_language_spec(
    configured: Seq<char>,
    pdf: Option<Seq<char>>,
    generated: Option<Seq<char>>,
) -> Option<Seq<char>> {
    let c = clean_value(configured);
    if c is Some && !eq_ignore_case(c->0, en_word()) {
        c
    } else {
        first_clean(seq![pdf, generated, c])
    }
}

fn resolve_language(cfg: &ConvertConfig, pdf_language: Option<String>, llm_language: Option<
    String,
>) -> (r: Option<String>)
    ensures
        opt_view(r) == resolve_language_spec(
            cfg.language@,
            opt_view(pdf_language),
            opt_view(llm_language),
        ),
{
    proof {
        reveal_strlit("en");
        assert("en"@ == en_word());
    }
    let configured = clean_metadata_value(cfg.language.as_str());
    if let Some(c) = &configured {
        if !eq_ignore_case_str(&chars_of(c.as_str()), "en") {
            return configured;
        }
    }
    first_of3(pdf_language, llm_language, configured)
}

/// Settings first, then the PDF, then generated metadata, field by field; the
/// description comes from the PDF or generation; subjects are merged without
/// repeats.
pub open spec fn merge_spec(cfg: ConvertConfig, pdf: MetadataView, generated: MetadataView) -> MetadataView {
    MetadataView {
        title: first_clean(seq![opt_view(cfg.title), pdf.title, generated.title]),
        author: first_clean(seq![opt_view(cfg.author), pdf.author, generated.author]),
        language: resolve_language_spec(cfg.language@, pdf.language, generated.language),
        publisher: first_clean(seq![opt_view(cfg.publisher), pdf.publisher, generated.publisher]),
        description: first_clean(seq![pdf.description, generated.description]),
        subjects: push_subjects_spec(push_subjects_spec(seq![], pdf.subjects), generated.subjects),
    }
}

fn first_of3(a: Option<String>, b: Option<String>, c: Option<String>) -> (r: Option<String>)
    ensures
        opt_view(r) == first_clean(seq![opt_view(a), opt_view(b), opt_view(c)]),
{
    let values = vec![a, b, c];
    let r = first_non_empty(&values);
    assert(opt_views(values@) =~= seq![opt_view(values@[0]), opt_view(values@[1]), opt_view(values@[2])]);
    r
}

/// Merges the settings, the PDF's metadata and generated metadata.
pub fn merge_metadata(cfg: &ConvertConfig, pdf_metadata: BookMetadata, llm_metadata: BookMetadata) -> (m: BookMetadata)
    ensures
        m@ == merge_spec(*cfg, pdf_metadata@, llm_metadata@),
{
    let ghost pv = pdf_metadata@;
    let ghost lv = llm_metadata@;
    let mut subjects: Vec<String> = Vec::new();
    assert(strings_view(subjects@) =~= Seq::<Seq<char>>::empty());
    push_subjects(&mut subjects, pdf_metadata.subjects);
    push_subjects(&mut subjects, llm_metadata.subjects);
    let descriptions = vec![pdf_metadata.description, llm_metadata.description];
    let description = first_non_empty(&descriptions);
    assert(opt_views(descriptions@) =~= seq![pv.description, lv.description]);
    let m = BookMetadata {
        title: first_of3(clone_opt(&cfg.title), pdf_metadata.title, llm_metadata.title),
        author: first_of3(clone_opt(&cfg.author), pdf_metadata.author, llm_metadata.author),
        language: resolve_language(cfg, pdf_metadata.language, llm_metadata.language),
        publisher: first_of3(
            clone_opt(&cfg.publisher),
            pdf_metadata.publisher,
            llm_metadata.publisher,
        ),
        description,
        subjects,
    };
    assert(m@ =~= merge_spec(*cfg, pv, lv));
    m
}

/// The book's metadata from the settings, the PDF's own metadata and, when it
/// was asked for and came back, generated metadata.
pub fn resolve_book_metadata(cfg: &ConvertConfig, pdf_metadata: BookMetadata, generated: Option<
    BookMetadata,
>) -> (m: BookMetadata)
    ensures
        m@ == merge_spec(
            *cfg,
            pdf_metadata@,
            match generated {
                Some(g) => g@,
                None => BookMetadata::empty_view(),
            },
        ),
{
    let llm = match generated {
        Some(g) => g,
        None => BookMetadata::empty(),
    };
    merge_metadata(cfg, pdf_metadata, llm)
}

/// The cleaned value of an optional field.
pub open spec fn clean_opt(o: Option<Seq<char>>) -> Option<Seq<char>> {
    match o {
        Some(v) => clean_value(v),
        None => None,
    }
}

proof fn lemma_first_clean3(a: Option<Seq<char>>, b: Option<Seq<char>>, c: Option<Seq<char>>)
    ensures
        first_clean(seq![a, b, c]) == (if clean_opt(a) is Some {
            clean_opt(a)
        } else if clean_opt(b) is Some {
            clean_opt(b)
        } else {
            clean_opt(c)
        }),
{
    reveal_with_fuel(first_clean, 4);
    let s = seq![a, b, c];
    assert(s.drop_first() =~= seq![b, c]);
    assert(seq![b, c].drop_first() =~= seq![c]);
    assert(seq![c].drop_first() =~= Seq::<Option<Seq<char>>>::empty());
}

/// Title, author and publisher come from the settings when they give a clean
/// value, else from the PDF, else from generated metadata.
pub proof fn lemma_settings_before_pdf_before_generated(
    cfg: ConvertConfig,
    pdf: MetadataView,
    generated: MetadataView,
)
    ensures
        ({
            let m = merge_spec(cfg, pdf, generated);
            &&& clean_opt(opt_view(cfg.title)) is Some ==> m.title == clean_opt(opt_view(cfg.title))
            &&& clean_opt(opt_view(cfg.title)) is None && clean_opt(pdf.title) is Some ==> m.title
                == clean_opt(pdf.title)
            &&& clean_opt(opt_view(cfg.title)) is None && clean_opt(pdf.title) is None ==> m.title
                == clean_opt(generated.title)
            &&& clean_opt(opt_view(cfg.author)) is Some ==> m.author == clean_opt(
                opt_view(cfg.author),
            )
            &&& clean_opt(opt_view(cfg.author)) is None && clean_opt(pdf.author) is Some
                ==> m.author == clean_opt(pdf.author)
            &&& clean_opt(opt_view(cfg.author)) is None && clean_opt(pdf.author) is None
                ==> m.author == clean_opt(generated.author)
            &&& clean_opt(opt_view(cfg.publisher)) is Some ==> m.publisher == clean_opt(
                opt_view(cfg.publisher),
            )
            &&& clean_opt(opt_view(cfg.publisher)) is None && clean_opt(pdf.publisher) is Some
                ==> m.publisher == clean_opt(pdf.publisher)
            &&& clean_opt(opt_view(cfg.publisher)) is None && clean_opt(pdf.publisher) is None
                ==> m.publisher == clean_opt(generated.publisher)
        }),
{
    lemma_first_clean3(opt_view(cfg.title), pdf.title, generated.title);
    lemma_first_clean3(opt_view(cfg.author), pdf.author, generated.author);
    lemma_first_clean3(opt_view(cfg.publisher), pdf.publisher, generated.publisher);
}

/// The description comes from the PDF when it gives a clean value there, and
/// from generated metadata only when the PDF gives none.
pub proof fn lemma_pdf_description_before_generated(cfg: ConvertConfig, pdf: MetadataView, generated: MetadataView)
    ensures
        clean_opt(pdf.description) is Some ==> merge_spec(cfg, pdf, generated).description == clean_opt(
            pdf.description,
        ),
        clean_opt(pdf.description) is None ==> merge_spec(cfg, pdf, generated).description == clean_opt(
            generated.description,
        ),
{
    reveal_with_fuel(first_clean, 3);
    let s = seq![pdf.description, generated.description];
    assert(s.drop_first() =~= seq![generated.description]);
    assert(seq![generated.description].drop_first() =~= Seq::<Option<Seq<char>>>::empty());
}

/// A configured language other than `en` is always the book's language.
pub proof fn lemma_configured_language_wins(cfg: ConvertConfig, pdf: MetadataView, generated: MetadataView)
    requires
        clean_value(cfg.language@) is Some,
        !eq_ignore_case(clean_value(cfg.language@)->0, en_word()),
    ensures
        merge_spec(cfg, pdf, generated).language == clean_value(cfg.language@),
{
}

/// The merged subjects never hold two entries that differ only in ASCII case.
pub proof fn lemma_merged_subjects_distinct(cfg: ConvertConfig, pdf: MetadataView, generated: MetadataView)
    ensures
        subjects_distinct(merge_spec(cfg, pdf, generated).subjects),
{
    lemma_push_subjects_distinct(seq![], pdf.subjects);
    lemma_push_subjects_distinct(push_subjects_spec(seq![], pdf.subjects), generated.subjects);
}

} // verus!
