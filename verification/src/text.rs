//! Character-level helpers shared by the whole library: trimming, ASCII case
//! folding, splitting and joining, all specified over `Seq<char>`.
use vstd::prelude::*;

verus! {

/// A vector of characters is deeply viewed as its own view.
pub broadcast proof fn lemma_deep_view_chars(x: Vec<char>)
    ensures
        #[trigger] x.deep_view() == x@,
{
    assert(x.deep_view() =~= x@);
}

/// Appends one character to a `String` (`String::push`).
#[verifier::external_body]
pub(crate) fn push_char(s: &mut String, c: char)
    ensures
        final(s)@ == old(s)@.push(c),
{
    s.push(c);
}

/// The characters of a string slice, in order.
pub fn chars_of(s: &str) -> (v: Vec<char>)
    ensures
        v@ == s@,
{
    let mut v: Vec<char> = Vec::new();
    for c in it: s.chars()
        invariant
            v@ == it.seq().take(it.index() as int),
            it.seq() == s@,
    {
        v.push(c);
    }
    v
}

/// Builds a `String` from a character sequence.
pub fn string_of(v: &[char]) -> (s: String)
    ensures
        s@ == v@,
{
    let mut s = String::new();
    let mut i: usize = 0;
    while i < v.len()
        invariant
            i <= v.len(),
            s@ == v@.take(i as int),
        decreases v.len() - i,
    {
        push_char(&mut s, v[i]);
        assert(v@.take(i as int).push(v@[i as int]) == v@.take(i as int + 1));
        i += 1;
    }
    assert(v@.take(v.len() as int) == v@);
    s
}

/// A copy of `v[from..to]`.
pub fn sub_chars(v: &[char], from: usize, to: usize) -> (r: Vec<char>)
    requires
        from <= to <= v.len(),
    ensures
        r@ == v@.subrange(from as int, to as int),
{
    let mut r: Vec<char> = Vec::new();
    let mut i = from;
    while i < to
        invariant
            from <= i <= to <= v.len(),
            r@ == v@.subrange(from as int, i as int),
        decreases to - i,
    {
        r.push(v[i]);
        assert(v@.subrange(from as int, i as int).push(v@[i as int]) == v@.subrange(
            from as int,
            i as int + 1,
        ));
        i += 1;
    }
    r
}

/// Appends `b` to `a`.
pub fn extend_chars(a: &mut Vec<char>, b: &[char])
    ensures
        final(a)@ == old(a)@ + b@,
{
    let mut i: usize = 0;
    while i < b.len()
        invariant
            i <= b.len(),
            a@ == old(a)@ + b@.take(i as int),
        decreases b.len() - i,
    {
        a.push(b[i]);
        assert(old(a)@ + b@.take(i as int + 1) == (old(a)@ + b@.take(i as int)).push(b@[i as int]));
        i += 1;
    }
    assert(b@.take(b.len() as int) == b@);
}

/// Appends the characters of `s` to `a`.
pub fn extend_str(a: &mut Vec<char>, s: &str)
    ensures
        final(a)@ == old(a)@ + s@,
{
    let v = chars_of(s);
    extend_chars(a, &v);
}

/// Whether two character sequences are equal.
pub fn chars_eq(a: &[char], b: &[char]) -> (r: bool)
    ensures
        r == (a@ == b@),
{
    if a.len() != b.len() {
        return false;
    }
    let mut i: usize = 0;
    while i < a.len()
        invariant
            a.len() == b.len(),
            i <= a.len(),
            forall|k: int| 0 <= k < i ==> a@[k] == b@[k],
        decreases a.len() - i,
    {
        if a[i] != b[i] {
            return false;
        }
        i += 1;
    }
    assert(a@ =~= b@);
    true
}

/// Whether `a` equals the characters of `s`.
pub fn chars_eq_str(a: &[char], s: &str) -> (r: bool)
    ensures
        r == (a@ == s@),
{
    let b = chars_of(s);
    chars_eq(a, &b)
}

// ---------------------------------------------------------------------------
// Character classes.
// ---------------------------------------------------------------------------

/// `char::is_ascii_whitespace`: space, tab, line feed, form feed, carriage return.
pub open spec fn is_ascii_ws(c: char) -> bool {
    c == ' ' || c == '\t' || c == '\n' || c == '\x0C' || c == '\r'
}

/// `char::is_whitespace`: the Unicode `White_Space` property.
pub open spec fn is_ws(c: char) -> bool {
    let n = c as u32;
    (9 <= n && n <= 13) || n == 32 || n == 0x85 || n == 0xA0 || n == 0x1680 || (0x2000 <= n
        && n <= 0x200A) || n == 0x2028 || n == 0x2029 || n == 0x202F || n == 0x205F || n == 0x3000
}

pub open spec fn is_ascii_digit(c: char) -> bool {
    '0' <= c && c <= '9'
}

pub open spec fn is_ascii_upper(c: char) -> bool {
    'A' <= c && c <= 'Z'
}

pub open spec fn is_ascii_lower(c: char) -> bool {
    'a' <= c && c <= 'z'
}

pub open spec fn is_ascii_alnum(c: char) -> bool {
    is_ascii_digit(c) || is_ascii_upper(c) || is_ascii_lower(c)
}

/// `char::to_ascii_lowercase`.
pub open spec fn lower_char(c: char) -> char {
    if is_ascii_upper(c) {
        ((c as u32) + 32) as char
    } else {
        c
    }
}

/// `str::to_ascii_lowercase`.
pub open spec fn ascii_lower(s: Seq<char>) -> Seq<char> {
    s.map_values(|c: char| lower_char(c))
}

/// `str::eq_ignore_ascii_case`.
pub open spec fn eq_ignore_case(a: Seq<char>, b: Seq<char>) -> bool {
    ascii_lower(a) == ascii_lower(b)
}

pub fn is_ws_exec(c: char) -> (r: bool)
    ensures
        r == is_ws(c),
{
    let n = c as u32;
    (9 <= n && n <= 13) || n == 32 || n == 0x85 || n == 0xA0 || n == 0x1680 || (0x2000 <= n
        && n <= 0x200A) || n == 0x2028 || n == 0x2029 || n == 0x202F || n == 0x205F || n == 0x3000
}

pub fn is_ascii_ws_exec(c: char) -> (r: bool)
    ensures
        r == is_ascii_ws(c),
{
    c == ' ' || c == '\t' || c == '\n' || c == '\x0C' || c == '\r'
}

pub fn is_ascii_alnum_exec(c: char) -> (r: bool)
    ensures
        r == is_ascii_alnum(c),
{
    ('0' <= c && c <= '9') || ('A' <= c && c <= 'Z') || ('a' <= c && c <= 'z')
}

pub fn lower_char_exec(c: char) -> (r: char)
    ensures
        r == lower_char(c),
{
    if 'A' <= c && c <= 'Z' {
        let b = (c as u8) + 32;
        assert(b as char == ((c as u32) + 32) as char);
        b as char
    } else {
        c
    }
}

pub fn ascii_lower_exec(v: &[char]) -> (r: Vec<char>)
    ensures
        r@ == ascii_lower(v@),
{
    let mut r: Vec<char> = Vec::new();
    let mut i: usize = 0;
    while i < v.len()
        invariant
            i <= v.len(),
            r@ == ascii_lower(v@.take(i as int)),
        decreases v.len() - i,
    {
        r.push(lower_char_exec(v[i]));
        assert(ascii_lower(v@.take(i as int + 1)) == ascii_lower(v@.take(i as int)).push(
            lower_char(v@[i as int]),
        ));
        i += 1;
    }
    assert(v@.take(v.len() as int) == v@);
    r
}

pub fn eq_ignore_case_exec(a: &[char], b: &[char]) -> (r: bool)
    ensures
        r == eq_ignore_case(a@, b@),
{
    let la = ascii_lower_exec(a);
    let lb = ascii_lower_exec(b);
    chars_eq(&la, &lb)
}

pub fn eq_ignore_case_str(a: &[char], s: &str) -> (r: bool)
    ensures
        r == eq_ignore_case(a@, s@),
{
    let b = chars_of(s);
    eq_ignore_case_exec(a, &b)
}

// ---------------------------------------------------------------------------
// Trimming.
// ---------------------------------------------------------------------------

/// A set of characters that trimming removes.
#[derive(Clone, Copy)]
pub enum CharClass {
    /// Unicode white space (`str::trim`).
    Space,
    /// One particular character (`str::trim_matches(c)`).
    Exactly(char),
    /// ASCII white space (`char::is_ascii_whitespace`).
    AsciiSpace,
    /// The separators of keyword lists: `,` `;` and line feed.
    ListSeparator,
    /// ASCII white space, `,` `;` and `|`.
    TokenSeparator,
}

pub open spec fn in_class(cls: CharClass, c: char) -> bool {
    match cls {
        CharClass::Space => is_ws(c),
        CharClass::Exactly(d) => c == d,
        CharClass::AsciiSpace => is_ascii_ws(c),
        CharClass::ListSeparator => c == ',' || c == ';' || c == '\n',
        CharClass::TokenSeparator => is_ascii_ws(c) || c == ',' || c == ';' || c == '|',
    }
}

pub fn in_class_exec(cls: CharClass, c: char) -> (r: bool)
    ensures
        r == in_class(cls, c),
{
    match cls {
        CharClass::Space => is_ws_exec(c),
        CharClass::Exactly(d) => c == d,
        CharClass::AsciiSpace => is_ascii_ws_exec(c),
        CharClass::ListSeparator => c == ',' || c == ';' || c == '\n',
        CharClass::TokenSeparator => is_ascii_ws_exec(c) || c == ',' || c == ';' || c == '|',
    }
}

/// What remains after removing leading characters of the class.
pub open spec fn trim_start_class(s: Seq<char>, cls: CharClass) -> Seq<char>
    decreases s.len(),
{
    if s.len() > 0 && in_class(cls, s[0]) {
        trim_start_class(s.drop_first(), cls)
    } else {
        s
    }
}

/// What remains after removing trailing characters of the class.
pub open spec fn trim_end_class(s: Seq<char>, cls: CharClass) -> Seq<char>
    decreases s.len(),
{
    if s.len() > 0 && in_class(cls, s.last()) {
        trim_end_class(s.drop_last(), cls)
    } else {
        s
    }
}

pub open spec fn trim_class(s: Seq<char>, cls: CharClass) -> Seq<char> {
    trim_end_class(trim_start_class(s, cls), cls)
}

/// `str::trim`.
pub open spec fn trim(s: Seq<char>) -> Seq<char> {
    trim_class(s, CharClass::Space)
}

pub open spec fn trim_start(s: Seq<char>) -> Seq<char> {
    trim_start_class(s, CharClass::Space)
}

pub open spec fn trim_end(s: Seq<char>) -> Seq<char> {
    trim_end_class(s, CharClass::Space)
}

/// The index of the first character of `v[.. to]` at or after `from` that is not in the class.
fn skip_class_forward(v: &[char], from: usize, to: usize, cls: CharClass) -> (i: usize)
    requires
        from <= to <= v.len(),
    ensures
        from <= i <= to,
        trim_start_class(v@.subrange(from as int, to as int), cls) == v@.subrange(
            i as int,
            to as int,
        ),
{
    let mut i = from;
    while i < to && in_class_exec(cls, v[i])
        invariant
            from <= i <= to <= v.len(),
            trim_start_class(v@.subrange(from as int, to as int), cls) == trim_start_class(
                v@.subrange(i as int, to as int),
                cls,
            ),
        decreases to - i,
    {
        assert(v@.subrange(i as int, to as int).drop_first() == v@.subrange(i as int + 1, to as int));
        i += 1;
    }
    i
}

/// The end of `v[from .. to]` once trailing characters of the class are removed.
fn skip_class_backward(v: &[char], from: usize, to: usize, cls: CharClass) -> (j: usize)
    requires
        from <= to <= v.len(),
    ensures
        from <= j <= to,
        trim_end_class(v@.subrange(from as int, to as int), cls) == v@.subrange(
            from as int,
            j as int,
        ),
{
    let mut j = to;
    while j > from && in_class_exec(cls, v[j - 1])
        invariant
            from <= j <= to <= v.len(),
            trim_end_class(v@.subrange(from as int, to as int), cls) == trim_end_class(
                v@.subrange(from as int, j as int),
                cls,
            ),
        decreases j - from,
    {
        assert(v@.subrange(from as int, j as int).drop_last() == v@.subrange(from as int, j - 1));
        j -= 1;
    }
    j
}

/// Bounds `(i, j)` of `v` trimmed on both ends by the class.
pub fn trim_bounds(v: &[char], cls: CharClass) -> (r: (usize, usize))
    ensures
        r.0 <= r.1 <= v.len(),
        trim_class(v@, cls) == v@.subrange(r.0 as int, r.1 as int),
        trim_start_class(v@, cls) == v@.subrange(r.0 as int, v.len() as int),
{
    assert(v@.subrange(0, v.len() as int) == v@);
    let i = skip_class_forward(v, 0, v.len(), cls);
    let j = skip_class_backward(v, i, v.len(), cls);
    (i, j)
}

pub fn trim_class_exec(v: &[char], cls: CharClass) -> (r: Vec<char>)
    ensures
        r@ == trim_class(v@, cls),
{
    let (i, j) = trim_bounds(v, cls);
    sub_chars(v, i, j)
}

pub fn trim_exec(v: &[char]) -> (r: Vec<char>)
    ensures
        r@ == trim(v@),
{
    trim_class_exec(v, CharClass::Space)
}

pub fn trim_start_exec(v: &[char]) -> (r: Vec<char>)
    ensures
        r@ == trim_start(v@),
{
    assert(v@.subrange(0, v.len() as int) == v@);
    let i = skip_class_forward(v, 0, v.len(), CharClass::Space);
    sub_chars(v, i, v.len())
}

pub fn trim_end_class_exec(v: &[char], cls: CharClass) -> (r: Vec<char>)
    ensures
        r@ == trim_end_class(v@, cls),
{
    assert(v@.subrange(0, v.len() as int) == v@);
    let j = skip_class_backward(v, 0, v.len(), cls);
    sub_chars(v, 0, j)
}

pub fn trim_end_exec(v: &[char]) -> (r: Vec<char>)
    ensures
        r@ == trim_end(v@),
{
    trim_end_class_exec(v, CharClass::Space)
}

pub fn trim_start_class_exec(v: &[char], cls: CharClass) -> (r: Vec<char>)
    ensures
        r@ == trim_start_class(v@, cls),
{
    assert(v@.subrange(0, v.len() as int) == v@);
    let i = skip_class_forward(v, 0, v.len(), cls);
    sub_chars(v, i, v.len())
}

/// Whether the trimmed text is empty, i.e. the text is all white space.
pub open spec fn is_blank(s: Seq<char>) -> bool {
    trim(s).len() == 0
}

pub fn is_blank_exec(v: &[char]) -> (r: bool)
    ensures
        r == is_blank(v@),
{
    let (i, j) = trim_bounds(v, CharClass::Space);
    i == j
}

// ---------------------------------------------------------------------------
// Prefixes, suffixes and containment.
// ---------------------------------------------------------------------------

pub open spec fn starts_with(s: Seq<char>, p: Seq<char>) -> bool {
    p.len() <= s.len() && s.subrange(0, p.len() as int) == p
}

pub open spec fn ends_with(s: Seq<char>, p: Seq<char>) -> bool {
    p.len() <= s.len() && s.subrange(s.len() - p.len(), s.len() as int) == p
}

/// Whether `p` occurs in `s` starting at index `i`.
pub open spec fn occurs_at(s: Seq<char>, p: Seq<char>, i: int) -> bool {
    0 <= i && i + p.len() <= s.len() && s.subrange(i, i + p.len()) == p
}

pub open spec fn contains_seq(s: Seq<char>, p: Seq<char>) -> bool {
    exists|i: int| occurs_at(s, p, i)
}

pub fn occurs_at_exec(v: &[char], p: &[char], i: usize) -> (r: bool)
    ensures
        r == occurs_at(v@, p@, i as int),
{
    if i > v.len() || p.len() > v.len() - i {
        return false;
    }
    let mut k: usize = 0;
    while k < p.len()
        invariant
            i + p.len() <= v.len(),
            k <= p.len(),
            forall|m: int| 0 <= m < k ==> v@[i + m] == p@[m],
        decreases p.len() - k,
    {
        if v[i + k] != p[k] {
            assert(v@.subrange(i as int, i + p.len())[k as int] != p@[k as int]);
            return false;
        }
        k += 1;
    }
    assert(v@.subrange(i as int, i + p.len()) =~= p@);
    true
}

pub fn starts_with_exec(v: &[char], p: &[char]) -> (r: bool)
    ensures
        r == starts_with(v@, p@),
{
    occurs_at_exec(v, p, 0)
}

pub fn ends_with_exec(v: &[char], p: &[char]) -> (r: bool)
    ensures
        r == ends_with(v@, p@),
{
    if p.len() > v.len() {
        return false;
    }
    occurs_at_exec(v, p, v.len() - p.len())
}

pub fn contains_exec(v: &[char], p: &[char]) -> (r: bool)
    ensures
        r == contains_seq(v@, p@),
{
    if p.len() > v.len() {
        return false;
    }
    let last = v.len() - p.len();
    let mut i: usize = 0;
    while i < last
        invariant
            p.len() <= v.len(),
            last == v.len() - p.len(),
            i <= last,
            forall|m: int| 0 <= m < i ==> !occurs_at(v@, p@, m),
        decreases last - i,
    {
        if occurs_at_exec(v, p, i) {
            return true;
        }
        i += 1;
    }
    if occurs_at_exec(v, p, last) {
        return true;
    }
    assert forall|m: int| !occurs_at(v@, p@, m) by {
        if 0 <= m && m + p.len() <= v.len() {
        }
    }
    false
}

pub fn contains_char_exec(v: &[char], c: char) -> (r: bool)
    ensures
        r == v@.contains(c),
{
    let mut i: usize = 0;
    while i < v.len()
        invariant
            i <= v.len(),
            forall|m: int| 0 <= m < i ==> v@[m] != c,
        decreases v.len() - i,
    {
        if v[i] == c {
            return true;
        }
        i += 1;
    }
    false
}

// ---------------------------------------------------------------------------
// Splitting and joining.
// ---------------------------------------------------------------------------

/// The index of the first character of the class, or -1.
pub open spec fn first_in_class(s: Seq<char>, cls: CharClass) -> int
    decreases s.len(),
{
    if s.len() == 0 {
        -1
    } else if in_class(cls, s[0]) {
        0
    } else {
        let r = first_in_class(s.drop_first(), cls);
        if r < 0 {
            -1
        } else {
            r + 1
        }
    }
}

pub proof fn lemma_first_in_class_bounds(s: Seq<char>, cls: CharClass)
    ensures
        -1 <= first_in_class(s, cls) < s.len(),
        first_in_class(s, cls) >= 0 ==> in_class(cls, s[first_in_class(s, cls)]),
        forall|k: int| 0 <= k < first_in_class(s, cls) ==> !in_class(cls, #[trigger] s[k]),
        first_in_class(s, cls) < 0 ==> forall|k: int| 0 <= k < s.len() ==> !in_class(cls, #[trigger] s[k]),
    decreases s.len(),
{
    if s.len() > 0 && !in_class(cls, s[0]) {
        lemma_first_in_class_bounds(s.drop_first(), cls);
        assert forall|k: int| 1 <= k < s.len() implies s[k] == s.drop_first()[k - 1] by {}
    }
}

/// The first character of the class in `s` is at `j`, when none before `j` is in it.
pub proof fn lemma_first_in_class_at(s: Seq<char>, cls: CharClass, j: int)
    requires
        0 <= j <= s.len(),
        forall|k: int| 0 <= k < j ==> !in_class(cls, #[trigger] s[k]),
    ensures
        j < s.len() && in_class(cls, s[j]) ==> first_in_class(s, cls) == j,
        j == s.len() ==> first_in_class(s, cls) == -1,
    decreases j,
{
    if j > 0 {
        let t = s.drop_first();
        assert forall|k: int| 0 <= k < j - 1 implies !in_class(cls, #[trigger] t[k]) by {
            assert(t[k] == s[k + 1]);
        }
        lemma_first_in_class_at(t, cls, j - 1);
    }
}

/// `str::split` on every character of the class (empty pieces included).
pub open spec fn split_class(s: Seq<char>, cls: CharClass) -> Seq<Seq<char>>
    decreases s.len(),
{
    let i = first_in_class(s, cls);
    if i < 0 || i >= s.len() {
        seq![s]
    } else {
        seq![s.subrange(0, i)] + split_class(s.subrange(i + 1, s.len() as int), cls)
    }
}

pub open spec fn split_on(s: Seq<char>, c: char) -> Seq<Seq<char>> {
    split_class(s, CharClass::Exactly(c))
}

pub fn split_class_exec(v: &[char], cls: CharClass) -> (r: Vec<Vec<char>>)
    ensures
        r.deep_view() == split_class(v@, cls),
        r.len() >= 1,
{
    broadcast use lemma_deep_view_chars;

    let mut r: Vec<Vec<char>> = Vec::new();
    let mut start: usize = 0;
    let mut i: usize = 0;
    assert(r.deep_view() =~= seq![]);
    assert(v@.subrange(0, v.len() as int) == v@);
    assert(r.deep_view() + split_class(v@.subrange(0, v.len() as int), cls) =~= split_class(v@, cls));
    while i < v.len()
        invariant
            start <= i <= v.len(),
            forall|k: int| start <= k < i ==> !in_class(cls, #[trigger] v@[k]),
            r.deep_view() + split_class(v@.subrange(start as int, v.len() as int), cls)
                == split_class(v@, cls),
        decreases v.len() - i,
    {
        if in_class_exec(cls, v[i]) {
            let ghost sub = v@.subrange(start as int, v.len() as int);
            proof {
                assert forall|k: int| 0 <= k < i - start implies !in_class(cls, #[trigger] sub[k]) by {
                    assert(sub[k] == v@[start + k]);
                }
                lemma_first_in_class_at(sub, cls, i - start);
                assert(sub.subrange(0, i - start) == v@.subrange(start as int, i as int));
                assert(sub.subrange(i - start + 1, sub.len() as int) == v@.subrange(
                    i + 1,
                    v.len() as int,
                ));
            }
            let piece = sub_chars(v, start, i);
            assert(piece.deep_view() == v@.subrange(start as int, i as int));
            let ghost old_r = r.deep_view();
            r.push(piece);
            assert(r.deep_view() =~= old_r.push(v@.subrange(start as int, i as int)));
            start = i + 1;
        }
        i += 1;
    }
    let ghost sub = v@.subrange(start as int, v.len() as int);
    proof {
        assert forall|k: int| 0 <= k < v.len() - start implies !in_class(cls, #[trigger] sub[k]) by {
            assert(sub[k] == v@[start + k]);
        }
        lemma_first_in_class_at(sub, cls, v.len() - start);
    }
    let piece = sub_chars(v, start, v.len());
    let ghost old_r = r.deep_view();
    r.push(piece);
    assert(r.deep_view() =~= old_r.push(sub));
    r
}

pub fn split_on_exec(v: &[char], c: char) -> (r: Vec<Vec<char>>)
    ensures
        r.deep_view() == split_on(v@, c),
        r.len() >= 1,
{
    split_class_exec(v, CharClass::Exactly(c))
}

/// The pieces that are not empty, in order.
pub open spec fn drop_empty(ps: Seq<Seq<char>>) -> Seq<Seq<char>>
    decreases ps.len(),
{
    if ps.len() == 0 {
        seq![]
    } else {
        let r = drop_empty(ps.drop_last());
        if ps.last().len() == 0 {
            r
        } else {
            r.push(ps.last())
        }
    }
}

pub fn drop_empty_exec(ps: Vec<Vec<char>>) -> (r: Vec<Vec<char>>)
    ensures
        r.deep_view() == drop_empty(ps.deep_view()),
{
    let mut r: Vec<Vec<char>> = Vec::new();
    let mut i: usize = 0;
    while i < ps.len()
        invariant
            i <= ps.len(),
            r.deep_view() == drop_empty(ps.deep_view().take(i as int)),
        decreases ps.len() - i,
    {
        let ghost pre = ps.deep_view().take(i as int + 1);
        assert(pre.drop_last() == ps.deep_view().take(i as int));
        assert(pre.last() == ps[i as int]@);
        if ps[i].len() > 0 {
            let ghost old_r = r.deep_view();
            r.push(ps[i].clone());
            assert(r.deep_view() =~= old_r.push(ps[i as int]@));
        }
        i += 1;
    }
    assert(ps.deep_view().take(ps.len() as int) == ps.deep_view());
    r
}

/// `str::split_whitespace`.
pub open spec fn words(s: Seq<char>) -> Seq<Seq<char>> {
    drop_empty(split_class(s, CharClass::Space))
}

pub fn words_exec(v: &[char]) -> (r: Vec<Vec<char>>)
    ensures
        r.deep_view() == words(v@),
{
    let parts = split_class_exec(v, CharClass::Space);
    drop_empty_exec(parts)
}

/// Removes one trailing carriage return.
pub open spec fn strip_cr(s: Seq<char>) -> Seq<char> {
    if s.len() > 0 && s.last() == '\r' {
        s.drop_last()
    } else {
        s
    }
}

/// `str::lines`: pieces between line feeds, each line feed optionally preceded by
/// a carriage return; a final line feed does not start another line.
pub open spec fn lines(s: Seq<char>) -> Seq<Seq<char>> {
    if s.len() == 0 {
        seq![]
    } else {
        let parts = split_on(s, '\n');
        let head = parts.drop_last().map_values(|p: Seq<char>| strip_cr(p));
        if parts.last().len() == 0 {
            head
        } else {
            head.push(parts.last())
        }
    }
}

pub fn lines_exec(v: &[char]) -> (r: Vec<Vec<char>>)
    ensures
        r.deep_view() == lines(v@),
{
    broadcast use lemma_deep_view_chars;

    let mut r: Vec<Vec<char>> = Vec::new();
    if v.len() == 0 {
        assert(r.deep_view() =~= seq![]);
        return r;
    }
    let parts = split_on_exec(v, '\n');
    let ghost pv = parts.deep_view();
    let n = parts.len();
    let mut i: usize = 0;
    while i + 1 < n
        invariant
            n == parts.len(),
            n >= 1,
            pv == parts.deep_view(),
            i + 1 <= n,
            r.deep_view() == pv.drop_last().take(i as int).map_values(
                |p: Seq<char>| strip_cr(p),
            ),
        decreases n - i,
    {
        let p = &parts[i];
        let stripped = if p.len() > 0 && p[p.len() - 1] == '\r' {
            assert(p@.drop_last() == p@.subrange(0, p.len() - 1));
            sub_chars(p, 0, p.len() - 1)
        } else {
            p.clone()
        };
        assert(stripped.deep_view() == strip_cr(pv[i as int]));
        let ghost old_r = r.deep_view();
        r.push(stripped);
        assert(r.deep_view() =~= old_r.push(strip_cr(pv[i as int])));
        assert(pv.drop_last().take(i as int + 1).map_values(|p: Seq<char>| strip_cr(p))
            =~= old_r.push(strip_cr(pv[i as int])));
        i += 1;
    }
    assert(pv.drop_last().take(i as int) == pv.drop_last());
    if parts[n - 1].len() > 0 {
        let ghost old_r = r.deep_view();
        r.push(parts[n - 1].clone());
        assert(r.deep_view() =~= old_r.push(pv.last()));
    }
    r
}

/// `[pieces].join(sep)`.
pub open spec fn join(pieces: Seq<Seq<char>>, sep: Seq<char>) -> Seq<char>
    decreases pieces.len(),
{
    if pieces.len() == 0 {
        seq![]
    } else if pieces.len() == 1 {
        pieces[0]
    } else {
        join(pieces.drop_last(), sep) + sep + pieces.last()
    }
}

/// Joins `pieces[from .. to]` with `sep`.
pub fn join_range(pieces: &Vec<Vec<char>>, from: usize, to: usize, sep: &[char]) -> (r: Vec<char>)
    requires
        from <= to <= pieces.len(),
    ensures
        r@ == join(pieces.deep_view().subrange(from as int, to as int), sep@),
{
    let mut r: Vec<char> = Vec::new();
    let mut i = from;
    while i < to
        invariant
            from <= i <= to <= pieces.len(),
            r@ == join(pieces.deep_view().subrange(from as int, i as int), sep@),
        decreases to - i,
    {
        let ghost pre = pieces.deep_view().subrange(from as int, i as int + 1);
        assert(pre.drop_last() == pieces.deep_view().subrange(from as int, i as int));
        assert(pre.last() == pieces[i as int]@);
        if i > from {
            extend_chars(&mut r, sep);
        }
        extend_chars(&mut r, &pieces[i]);
        i += 1;
    }
    r
}

pub fn join_all(pieces: &Vec<Vec<char>>, sep: &[char]) -> (r: Vec<char>)
    ensures
        r@ == join(pieces.deep_view(), sep@),
{
    let r = join_range(pieces, 0, pieces.len(), sep);
    assert(pieces.deep_view().subrange(0, pieces.len() as int) == pieces.deep_view());
    r
}

/// The view of an optional string.
pub open spec fn opt_view(o: Option<String>) -> Option<Seq<char>> {
    match o {
        Some(s) => Some(s@),
        None => None,
    }
}

/// The views of a list of strings.
pub open spec fn strings_view(v: Seq<String>) -> Seq<Seq<char>> {
    v.map_values(|s: String| s@)
}

/// Clones an optional string.
pub fn clone_opt(o: &Option<String>) -> (r: Option<String>)
    ensures
        opt_view(r) == opt_view(*o),
{
    match o {
        Some(s) => Some(s.clone()),
        None => None,
    }
}

/// Clones a list of strings.
pub fn clone_strings(v: &Vec<String>) -> (r: Vec<String>)
    ensures
        strings_view(r@) == strings_view(v@),
{
    let mut r: Vec<String> = Vec::new();
    let mut i: usize = 0;
    while i < v.len()
        invariant
            i <= v.len(),
            r.len() == i,
            forall|k: int| 0 <= k < i ==> (#[trigger] r@[k])@ == v@[k]@,
        decreases v.len() - i,
    {
        r.push(v[i].clone());
        i += 1;
    }
    assert(strings_view(r@) =~= strings_view(v@));
    r
}

/// `a + b` as a new `String`.
pub fn concat_str(a: &str, b: &str) -> (r: String)
    ensures
        r@ == a@ + b@,
{
    let mut r = String::new();
    r.append(a);
    r.append(b);
    assert(r@ =~= a@ + b@);
    r
}

// ---------------------------------------------------------------------------
// Replacement and escaping.
// ---------------------------------------------------------------------------

/// `str::replace(pat, rep)` for a non-empty pattern: occurrences are replaced left
/// to right without overlapping.
pub open spec fn replace_spec(s: Seq<char>, pat: Seq<char>, rep: Seq<char>) -> Seq<char>
    decreases s.len(),
{
    if s.len() == 0 || pat.len() == 0 {
        s
    } else if starts_with(s, pat) {
        rep + replace_spec(s.subrange(pat.len() as int, s.len() as int), pat, rep)
    } else {
        seq![s[0]] + replace_spec(s.drop_first(), pat, rep)
    }
}

pub fn replace_exec(v: &[char], pat: &[char], rep: &[char]) -> (r: Vec<char>)
    requires
        pat.len() > 0,
    ensures
        r@ == replace_spec(v@, pat@, rep@),
{
    let mut r: Vec<char> = Vec::new();
    let mut i: usize = 0;
    assert(v@.subrange(0, v.len() as int) == v@);
    while i < v.len()
        invariant
            pat.len() > 0,
            i <= v.len(),
            r@ + replace_spec(v@.subrange(i as int, v.len() as int), pat@, rep@) == replace_spec(
                v@,
                pat@,
                rep@,
            ),
        decreases v.len() - i,
    {
        let ghost rest = v@.subrange(i as int, v.len() as int);
        if occurs_at_exec(v, pat, i) {
            assert(rest.subrange(0, pat.len() as int) == v@.subrange(i as int, i + pat.len()));
            assert(rest.subrange(pat.len() as int, rest.len() as int) == v@.subrange(
                i + pat.len(),
                v.len() as int,
            ));
            let ghost old_r = r@;
            extend_chars(&mut r, rep);
            assert(r@ + replace_spec(v@.subrange(i + pat.len(), v.len() as int), pat@, rep@)
                =~= old_r + replace_spec(rest, pat@, rep@));
            i += pat.len();
        } else {
            assert(!starts_with(rest, pat@)) by {
                if pat.len() <= rest.len() {
                    assert(rest.subrange(0, pat.len() as int) == v@.subrange(i as int, i + pat.len()));
                }
            }
            assert(rest.drop_first() == v@.subrange(i + 1, v.len() as int));
            let ghost old_r = r@;
            r.push(v[i]);
            assert(r@ + replace_spec(v@.subrange(i + 1, v.len() as int), pat@, rep@) =~= old_r
                + replace_spec(rest, pat@, rep@));
            i += 1;
        }
    }
    assert(v@.subrange(v.len() as int, v.len() as int) =~= Seq::<char>::empty());
    assert(r@ =~= r@ + Seq::<char>::empty());
    r
}

/// `str::replace` with string arguments.
pub fn replace_str(s: &str, pat: &str, rep: &str) -> (r: String)
    requires
        pat@.len() > 0,
    ensures
        r@ == replace_spec(s@, pat@, rep@),
{
    let v = chars_of(s);
    let p = chars_of(pat);
    let q = chars_of(rep);
    let r = replace_exec(&v, &p, &q);
    string_of(&r)
}

/// The XML escape of one character.
pub open spec fn xml_escape_char(c: char) -> Seq<char> {
    if c == '&' {
        "&amp;"@
    } else if c == '<' {
        "&lt;"@
    } else if c == '>' {
        "&gt;"@
    } else if c == '"' {
        "&quot;"@
    } else if c == '\'' {
        "&apos;"@
    } else {
        seq![c]
    }
}

/// XML escaping: `&`, `<`, `>`, `"` and `'` become entity references.
pub open spec fn xml_escape_spec(s: Seq<char>) -> Seq<char>
    decreases s.len(),
{
    if s.len() == 0 {
        seq![]
    } else {
        xml_escape_spec(s.drop_last()) + xml_escape_char(s.last())
    }
}

pub fn xml_escape_chars(v: &[char]) -> (r: Vec<char>)
    ensures
        r@ == xml_escape_spec(v@),
{
    let mut r: Vec<char> = Vec::new();
    let mut i: usize = 0;
    while i < v.len()
        invariant
            i <= v.len(),
            r@ == xml_escape_spec(v@.take(i as int)),
        decreases v.len() - i,
    {
        let c = v[i];
        assert(v@.take(i as int + 1).drop_last() == v@.take(i as int));
        if c == '&' {
            extend_str(&mut r, "&amp;");
        } else if c == '<' {
            extend_str(&mut r, "&lt;");
        } else if c == '>' {
            extend_str(&mut r, "&gt;");
        } else if c == '"' {
            extend_str(&mut r, "&quot;");
        } else if c == '\'' {
            extend_str(&mut r, "&apos;");
        } else {
            r.push(c);
            assert(r@ =~= xml_escape_spec(v@.take(i as int)) + seq![c]);
        }
        i += 1;
    }
    assert(v@.take(v.len() as int) == v@);
    r
}

/// `xml_escape` of a string.
pub fn xml_escape(s: &str) -> (r: String)
    ensures
        r@ == xml_escape_spec(s@),
{
    let v = chars_of(s);
    let e = xml_escape_chars(&v);
    string_of(&e)
}

/// Escaped text holds no markup characters other than the `&` of references.
pub proof fn lemma_xml_escape_no_markup(s: Seq<char>)
    ensures
        !xml_escape_spec(s).contains('<'),
        !xml_escape_spec(s).contains('>'),
        !xml_escape_spec(s).contains('"'),
        !xml_escape_spec(s).contains('\''),
    decreases s.len(),
{
    reveal_strlit("&amp;");
    reveal_strlit("&lt;");
    reveal_strlit("&gt;");
    reveal_strlit("&quot;");
    reveal_strlit("&apos;");
    if s.len() > 0 {
        lemma_xml_escape_no_markup(s.drop_last());
        let a = xml_escape_spec(s.drop_last());
        let b = xml_escape_char(s.last());
        assert forall|c: char| (c == '<' || c == '>' || c == '"' || c == '\'') implies !(a
            + b).contains(c) by {
            if (a + b).contains(c) {
                let k = choose|k: int| 0 <= k < (a + b).len() && (a + b)[k] == c;
                if k < a.len() {
                    assert(a[k] == c);
                } else {
                    assert(b[k - a.len()] == c);
                }
            }
        }
    }
}

// ---------------------------------------------------------------------------
// Decimal numbers.
// ---------------------------------------------------------------------------

pub open spec fn digit_char(d: nat) -> char {
    (('0' as u32) + d) as char
}

/// The decimal digits of `n`, most significant first, without leading zeros.
pub open spec fn decimal(n: nat) -> Seq<char>
    decreases n,
{
    if n < 10 {
        seq![digit_char(n)]
    } else {
        decimal(n / 10).push(digit_char(n % 10))
    }
}

/// `format!("{:0w$}", n)`: the decimal digits, left-padded with `0` to width `w`.
pub open spec fn zero_padded(n: nat, w: nat) -> Seq<char> {
    if decimal(n).len() >= w {
        decimal(n)
    } else {
        Seq::new((w - decimal(n).len()) as nat, |i: int| '0') + decimal(n)
    }
}

pub fn decimal_exec(n: u64) -> (r: Vec<char>)
    ensures
        r@ == decimal(n as nat),
    decreases n,
{
    if n < 10 {
        let c = ((n as u8) + 48) as char;
        assert(c == digit_char(n as nat));
        let mut r: Vec<char> = Vec::new();
        r.push(c);
        assert(r@ =~= seq![digit_char(n as nat)]);
        r
    } else {
        let mut r = decimal_exec(n / 10);
        let d = n % 10;
        let c = ((d as u8) + 48) as char;
        assert(c == digit_char((n % 10) as nat));
        r.push(c);
        r
    }
}

pub fn zero_padded_exec(n: u64, w: usize) -> (r: Vec<char>)
    ensures
        r@ == zero_padded(n as nat, w as nat),
{
    let d = decimal_exec(n);
    if d.len() >= w {
        return d;
    }
    let mut r: Vec<char> = Vec::new();
    let pad = w - d.len();
    let mut i: usize = 0;
    while i < pad
        invariant
            i <= pad,
            r@ == Seq::new(i as nat, |k: int| '0'),
        decreases pad - i,
    {
        r.push('0');
        assert(r@ =~= Seq::new((i + 1) as nat, |k: int| '0'));
        i += 1;
    }
    extend_chars(&mut r, &d);
    r
}

// ---------------------------------------------------------------------------
// Facts about trimming.
// ---------------------------------------------------------------------------

pub proof fn lemma_trim_start_class_shape(s: Seq<char>, cls: CharClass)
    ensures
        exists|i: int| 0 <= i <= s.len() && trim_start_class(s, cls) == s.subrange(i, s.len() as int),
        trim_start_class(s, cls).len() > 0 ==> !in_class(cls, trim_start_class(s, cls)[0]),
    decreases s.len(),
{
    if s.len() > 0 && in_class(cls, s[0]) {
        lemma_trim_start_class_shape(s.drop_first(), cls);
        let i = choose|i: int| 0 <= i <= s.drop_first().len() && trim_start_class(s.drop_first(), cls)
            == s.drop_first().subrange(i, s.drop_first().len() as int);
        assert(s.drop_first().subrange(i, s.drop_first().len() as int) == s.subrange(i + 1, s.len() as int));
    } else {
        assert(s.subrange(0, s.len() as int) == s);
    }
}

pub proof fn lemma_trim_end_class_shape(s: Seq<char>, cls: CharClass)
    ensures
        exists|j: int| 0 <= j <= s.len() && trim_end_class(s, cls) == s.subrange(0, j),
        trim_end_class(s, cls).len() > 0 ==> !in_class(cls, trim_end_class(s, cls).last()),
    decreases s.len(),
{
    if s.len() > 0 && in_class(cls, s.last()) {
        lemma_trim_end_class_shape(s.drop_last(), cls);
        let j = choose|j: int| 0 <= j <= s.drop_last().len() && trim_end_class(s.drop_last(), cls)
            == s.drop_last().subrange(0, j);
        assert(s.drop_last().subrange(0, j) == s.subrange(0, j));
    } else {
        assert(s.subrange(0, s.len() as int) == s);
    }
}

/// Trimming on both ends keeps a contiguous middle part, whose ends are outside the class.
pub proof fn lemma_trim_class_shape(s: Seq<char>, cls: CharClass)
    ensures
        exists|i: int, j: int| 0 <= i <= j <= s.len() && trim_class(s, cls) == s.subrange(i, j),
        trim_class(s, cls).len() > 0 ==> !in_class(cls, trim_class(s, cls)[0]),
        trim_class(s, cls).len() > 0 ==> !in_class(cls, trim_class(s, cls).last()),
{
    lemma_trim_start_class_shape(s, cls);
    let t = trim_start_class(s, cls);
    lemma_trim_end_class_shape(t, cls);
    let i = choose|i: int| 0 <= i <= s.len() && t == s.subrange(i, s.len() as int);
    let j = choose|j: int| 0 <= j <= t.len() && trim_end_class(t, cls) == t.subrange(0, j);
    assert(t.subrange(0, j) == s.subrange(i, i + j));
    if trim_class(s, cls).len() > 0 {
        assert(trim_class(s, cls)[0] == t[0]);
    }
}

/// The index of the last occurrence of `c`, or -1.
pub open spec fn last_index_of(s: Seq<char>, c: char) -> int
    decreases s.len(),
{
    if s.len() == 0 {
        -1
    } else if s.last() == c {
        s.len() - 1
    } else {
        last_index_of(s.drop_last(), c)
    }
}

pub proof fn lemma_last_index_of(s: Seq<char>, c: char)
    ensures
        -1 <= last_index_of(s, c) < s.len(),
        last_index_of(s, c) >= 0 ==> s[last_index_of(s, c)] == c,
        last_index_of(s, c) < 0 <==> !s.contains(c),
    decreases s.len(),
{
    if s.len() > 0 && s.last() != c {
        lemma_last_index_of(s.drop_last(), c);
        if s.contains(c) {
            let k = choose|k: int| 0 <= k < s.len() && s[k] == c;
            assert(s.drop_last()[k] == c);
        }
        if s.drop_last().contains(c) {
            let k = choose|k: int| 0 <= k < s.drop_last().len() && s.drop_last()[k] == c;
            assert(s[k] == c);
        }
    }
    if s.len() > 0 && s.last() == c {
        assert(s[s.len() - 1] == c);
    }
}

pub fn last_index_of_exec(v: &[char], c: char) -> (r: Option<usize>)
    ensures
        match r {
            Some(i) => last_index_of(v@, c) == i as int,
            None => last_index_of(v@, c) == -1,
        },
{
    let mut j = v.len();
    assert(v@.take(j as int) == v@);
    while j > 0
        invariant
            j <= v.len(),
            last_index_of(v@, c) == last_index_of(v@.take(j as int), c),
        decreases j,
    {
        assert(v@.take(j as int).drop_last() == v@.take(j - 1));
        if v[j - 1] == c {
            return Some(j - 1);
        }
        j -= 1;
    }
    None
}


// ---------------------------------------------------------------------------
// Decoding bytes.
// ---------------------------------------------------------------------------

/// The text that `String::from_utf8_lossy` makes of `bytes`: valid sequences
/// decoded, each invalid one replaced by U+FFFD.
pub uninterp spec fn utf8_lossy(bytes: Seq<u8>) -> Seq<char>;

/// Calls `String::from_utf8_lossy`; on valid UTF-8 it decodes exactly.
#[verifier::external_body]
pub(crate) fn string_from_utf8_lossy(bytes: &[u8]) -> (r: String)
    ensures
        r@ == utf8_lossy(bytes@),
        vstd::utf8::valid_utf8(bytes@) ==> r@ == vstd::utf8::decode_utf8(bytes@),
{
    String::from_utf8_lossy(bytes).into_owned()
}

/// UTF-16 decoding, as `String::from_utf16` does it: a unit outside the
/// surrogate range is its own character, a high surrogate followed by a low one
/// is the character they encode, and any other surrogate makes the text invalid
/// (`None`).
pub open spec fn utf16_decoded(units: Seq<u16>) -> Option<Seq<char>>
    decreases units.len(),
{
    if units.len() == 0 {
        Some(seq![])
    } else {
        let u = units[0] as int;
        if u < 0xD800 || u > 0xDFFF {
            match utf16_decoded(units.drop_first()) {
                Some(rest) => Some(seq![u as char] + rest),
                None => None,
            }
        } else if u <= 0xDBFF && units.len() >= 2 && 0xDC00 <= units[1] && units[1] <= 0xDFFF {
            let c = (0x10000 + (u - 0xD800) * 0x400 + (units[1] - 0xDC00)) as char;
            match utf16_decoded(units.subrange(2, units.len() as int)) {
                Some(rest) => Some(seq![c] + rest),
                None => None,
            }
        } else {
            None
        }
    }
}

/// Calls `String::from_utf16`.
#[verifier::external_body]
pub(crate) fn string_from_utf16(units: &[u16]) -> (r: Option<String>)
    ensures
        opt_view(r) == utf16_decoded(units@),
{
    String::from_utf16(units).ok()
}


/// The view of an optional character vector.
pub open spec fn opt_chars(o: Option<Vec<char>>) -> Option<Seq<char>> {
    match o {
        Some(v) => Some(v@),
        None => None,
    }
}


/// Joining a piece in front of at least one more.
pub proof fn lemma_join_cons(p: Seq<char>, rest: Seq<Seq<char>>, sep: Seq<char>)
    requires
        rest.len() >= 1,
    ensures
        join(seq![p] + rest, sep) == p + sep + join(rest, sep),
    decreases rest.len(),
{
    let whole = seq![p] + rest;
    if rest.len() == 1 {
        assert(whole.drop_last() =~= seq![p]);
        assert(whole.last() == rest[0]);
        assert(join(seq![p], sep) == p);
        assert(join(rest, sep) == rest[0]);
    } else {
        assert(join(rest, sep) == join(rest.drop_last(), sep) + sep + rest.last());
        assert(whole.drop_last() =~= seq![p] + rest.drop_last());
        assert(whole.last() == rest.last());
        lemma_join_cons(p, rest.drop_last(), sep);
        assert(p + sep + join(rest.drop_last(), sep) + sep + rest.last() =~= p + sep + (join(
            rest.drop_last(),
            sep,
        ) + sep + rest.last()));
    }
}

/// Splitting gives at least one piece.
pub proof fn lemma_split_class_nonempty(s: Seq<char>, cls: CharClass)
    ensures
        split_class(s, cls).len() >= 1,
    decreases s.len(),
{
    lemma_first_in_class_bounds(s, cls);
    let i = first_in_class(s, cls);
    if i >= 0 && i < s.len() {
        lemma_split_class_nonempty(s.subrange(i + 1, s.len() as int), cls);
    }
}

/// Joining the pieces of a split on `c` with `c` gives back the text.
pub proof fn lemma_join_split_on(s: Seq<char>, c: char)
    ensures
        join(split_on(s, c), seq![c]) == s,
    decreases s.len(),
{
    let cls = CharClass::Exactly(c);
    lemma_first_in_class_bounds(s, cls);
    let i = first_in_class(s, cls);
    if i >= 0 && i < s.len() {
        let rest = s.subrange(i + 1, s.len() as int);
        lemma_join_split_on(rest, c);
        lemma_split_class_nonempty(rest, cls);
        lemma_join_cons(s.subrange(0, i), split_class(rest, cls), seq![c]);
        assert(s.subrange(0, i) + seq![c] + rest =~= s);
    }
}

} // verus!
