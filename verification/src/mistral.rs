//! What the conversion reads from and sends to the OCR and chat services
//! besides the requests themselves: the text sample that metadata is generated
//! from, the generated metadata, error replies, and when to try again.
use vstd::prelude::*;
use crate::errors::{BaegunError, ErrorKind};
use crate::metadata::{clean_all, first_clean, unknown_word};
use crate::models::{BookMetadata, MetadataView, MistralOcrResponse, OcrPage};
use crate::normalize::{clone_keys, find_first, page_order, positions_view, stable_order_by_key};
use crate::text::{
    chars_of, concat_str, decimal, decimal_exec, eq_ignore_case, eq_ignore_case_str, extend_chars,
    extend_str, is_blank, join, join_all, opt_view, split_class, split_class_exec, string_of,
    strings_view, sub_chars, trim, trim_exec, words, words_exec, CharClass, opt_chars,
    first_in_class, last_index_of, last_index_of_exec, lemma_last_index_of, lemma_deep_view_chars,
};

verus! {

// ---------------------------------------------------------------------------
// UTF-8 lengths and truncation.
// ---------------------------------------------------------------------------

/// The number of bytes of a character in UTF-8.
pub open spec fn utf8_width(c: char) -> nat {
    let n = c as u32;
    if n < 0x80 {
        1
    } else if n < 0x800 {
        2
    } else if n < 0x10000 {
        3
    } else {
        4
    }
}

/// The number of bytes of a text in UTF-8.
pub open spec fn utf8_len(s: Seq<char>) -> nat
    decreases s.len(),
{
    if s.len() == 0 {
        0
    } else {
        utf8_len(s.drop_last()) + utf8_width(s.last())
    }
}

fn utf8_width_exec(c: char) -> (r: usize)
    ensures
        r == utf8_width(c),
{
    let n = c as u32;
    if n < 0x80 {
        1
    } else if n < 0x800 {
        2
    } else if n < 0x10000 {
        3
    } else {
        4
    }
}

/// The UTF-8 length of `v`, or `cap` when it is at least that.
fn utf8_len_capped(v: &[char], cap: usize) -> (r: usize)
    ensures
        r == (if utf8_len(v@) >= cap { cap as nat } else { utf8_len(v@) }),
{
    if cap == 0 {
        return 0;
    }
    let mut n: usize = 0;
    let mut i: usize = 0;
    assert(v@.take(0) =~= Seq::<char>::empty());
    while i < v.len()
        invariant
            i <= v.len(),
            n == utf8_len(v@.take(i as int)),
            n < cap,
        decreases v.len() - i,
    {
        assert(v@.take(i as int + 1).drop_last() == v@.take(i as int));
        let w = utf8_width_exec(v[i]);
        if w >= cap - n {
            proof {
                lemma_utf8_len_prefix(v@, i as int + 1);
            }
            return cap;
        }
        n = n + w;
        i += 1;
    }
    assert(v@.take(v.len() as int) == v@);
    n
}

proof fn lemma_utf8_len_prefix(s: Seq<char>, n: int)
    requires
        0 <= n <= s.len(),
    ensures
        utf8_len(s.take(n)) <= utf8_len(s),
    decreases s.len() - n,
{
    if n < s.len() {
        lemma_utf8_len_prefix(s, n + 1);
        assert(s.take(n + 1).drop_last() == s.take(n));
    } else {
        assert(s.take(n) == s);
    }
}

/// The number of leading characters, from the first `i` on, whose UTF-8 length
/// stays within `max`.
pub open spec fn fit_count(s: Seq<char>, max: nat, i: int) -> int
    decreases s.len() - i,
{
    if 0 <= i < s.len() && utf8_len(s.take(i + 1)) <= max {
        fit_count(s, max, i + 1)
    } else {
        i
    }
}

/// A text cut to at most `max` UTF-8 bytes at a character boundary.
pub open spec fn truncate_spec(s: Seq<char>, max: nat) -> Seq<char> {
    if utf8_len(s) <= max {
        s
    } else {
        s.take(fit_count(s, max, 0))
    }
}

/// Cuts a text to at most `max_len` UTF-8 bytes without splitting a character.
pub fn truncate_chars(value: &str, max_len: usize) -> (r: String)
    ensures
        r@ == truncate_spec(value@, max_len as nat),
{
    let v = chars_of(value);
    let mut n: usize = 0;
    let mut i: usize = 0;
    assert(v@.take(0) =~= Seq::<char>::empty());
    while i < v.len() && utf8_width_exec(v[i]) <= max_len - n
        invariant
            i <= v.len(),
            n == utf8_len(v@.take(i as int)),
            n <= max_len,
            fit_count(v@, max_len as nat, i as int) == fit_count(v@, max_len as nat, 0),
        decreases v.len() - i,
    {
        assert(v@.take(i as int + 1).drop_last() == v@.take(i as int));
        n = n + utf8_width_exec(v[i]);
        i += 1;
    }
    proof {
        if i < v.len() {
            assert(v@.take(i as int + 1).drop_last() == v@.take(i as int));
            lemma_utf8_len_prefix(v@, i as int + 1);
        } else {
            assert(v@.take(i as int) == v@);
        }
    }
    string_of(&sub_chars(&v, 0, i))
}


// ---------------------------------------------------------------------------
// The text sample for metadata generation.
// ---------------------------------------------------------------------------

/// At most this many pages go into the sample.
pub const SAMPLE_PAGES: usize = 8;

/// The sample is cut to at most this many UTF-8 bytes.
pub const SAMPLE_BYTES: usize = 12000;

/// The sample's piece for one page.
pub open spec fn sample_piece(page: OcrPage) -> Seq<char> {
    "Page "@ + decimal((page.index + 1) as nat) + ":\n"@ + trim(page.markdown@) + "\n\n"@
}

/// The sample gathered from the `t`-th page in index order on: non-blank pages,
/// among the first eight, until the sample reaches its size.
pub open spec fn sample_from(pages: Seq<OcrPage>, order: Seq<int>, t: int, acc: Seq<char>) -> Seq<char>
    decreases SAMPLE_PAGES - t,
{
    if t < 0 || t >= SAMPLE_PAGES || t >= order.len() {
        acc
    } else {
        let page = pages[order[t]];
        if trim(page.markdown@).len() == 0 {
            sample_from(pages, order, t + 1, acc)
        } else {
            let a = acc + sample_piece(page);
            if utf8_len(a) >= SAMPLE_BYTES {
                a
            } else {
                sample_from(pages, order, t + 1, a)
            }
        }
    }
}

/// The text that book metadata is generated from: the first pages in index
/// order, each labelled with its number, trimmed and cut to the sample size.
pub open spec fn metadata_sample_spec(pages: Seq<OcrPage>) -> Seq<char> {
    truncate_spec(trim(sample_from(pages, page_order(pages), 0, seq![])), SAMPLE_BYTES as nat)
}

pub fn ocr_metadata_sample(ocr_payload: &MistralOcrResponse) -> (r: String)
    requires
        forall|k: int| 0 <= k < ocr_payload.pages.len() ==> (#[trigger] ocr_payload.pages@[k]).index < usize::MAX,
    ensures
        r@ == metadata_sample_spec(ocr_payload.pages@),
{
    let pages = &ocr_payload.pages;
    let keys = clone_keys(pages);
    let order = stable_order_by_key(&keys);
    let ghost ov = positions_view(order@);
    assert(ov == page_order(pages@));
    let mut sample: Vec<char> = Vec::new();
    let mut t: usize = 0;
    let mut done = false;
    while t < SAMPLE_PAGES && t < order.len() && !done
        invariant
            t <= SAMPLE_PAGES,
            ov == positions_view(order@),
            order.len() == pages.len(),
            forall|m: int| 0 <= m < order.len() ==> #[trigger] order@[m] < pages.len(),
            forall|k: int| 0 <= k < pages.len() ==> (#[trigger] pages@[k]).index < usize::MAX,
            done ==> sample@ == sample_from(pages@, ov, 0, seq![]),
            !done ==> sample_from(pages@, ov, t as int, sample@) == sample_from(pages@, ov, 0, seq![]),
        decreases SAMPLE_PAGES - t,
    {
        let page = &pages[order[t]];
        assert(ov[t as int] == order@[t as int] as int);
        let ghost before = sample@;
        let md = trim_exec(&chars_of(page.markdown.as_str()));
        if md.len() > 0 {
            extend_str(&mut sample, "Page ");
            extend_chars(&mut sample, &decimal_exec((page.index + 1) as u64));
            extend_str(&mut sample, ":\n");
            extend_chars(&mut sample, &md);
            extend_str(&mut sample, "\n\n");
            assert(sample@ =~= before + sample_piece(*page));
            if utf8_len_capped(&sample, SAMPLE_BYTES) >= SAMPLE_BYTES {
                done = true;
            }
        }
        t += 1;
    }
    let trimmed = string_of(&trim_exec(&sample));
    truncate_chars(trimmed.as_str(), SAMPLE_BYTES)
}


// ---------------------------------------------------------------------------
// Generated metadata.
// ---------------------------------------------------------------------------

/// The text from the first `{` to the last `}`, when the first comes first.
pub open spec fn json_object_spec(content: Seq<char>) -> Option<Seq<char>> {
    let start = first_in_class(content, CharClass::Exactly('{'));
    let end = last_index_of(content, '}');
    if start < 0 || end < 0 || start > end {
        None
    } else {
        Some(content.subrange(start, end + 1))
    }
}

/// The JSON object inside a chat reply, which may wrap it in other text.
pub fn extract_json_object(content: &str) -> (r: Option<String>)
    ensures
        opt_view(r) == json_object_spec(content@),
{
    let v = chars_of(content);
    let (found, start) = find_first(&v, '{');
    if !found {
        return None;
    }
    let end = match last_index_of_exec(&v, '}') {
        Some(e) => e,
        None => {
            return None;
        },
    };
    proof {
        lemma_last_index_of(v@, '}');
    }
    if start > end {
        return None;
    }
    Some(string_of(&sub_chars(&v, start, end + 1)))
}

/// A field of a JSON object as the metadata logic reads it: a string, an array
/// (its string items, `None` for other items), or another kind of value.
pub enum JsonField {
    Text(String),
    List(Vec<Option<String>>),
    Other,
}

pub enum FieldView {
    Text(Seq<char>),
    List(Seq<Option<Seq<char>>>),
    Other,
}

pub open spec fn field_view(f: JsonField) -> FieldView {
    match f {
        JsonField::Text(s) => FieldView::Text(s@),
        JsonField::List(items) => FieldView::List(items@.map_values(|o: Option<String>| opt_view(o))),
        JsonField::Other => FieldView::Other,
    }
}

pub open spec fn opt_field_view(f: Option<JsonField>) -> Option<FieldView> {
    match f {
        Some(x) => Some(field_view(x)),
        None => None,
    }
}

/// The fields `keys` of the JSON value that `text` holds (`None` for a field it
/// lacks or when it is no object), or the parser's error.
pub uninterp spec fn json_fields_of(text: Seq<char>, keys: Seq<Seq<char>>) -> Result<Seq<Option<FieldView>>, Seq<char>>;

/// Parses `text` with `serde_json::from_str` into a `serde_json::Value` and looks
/// up each key with `Value::get`.
#[verifier::external_body]
fn json_fields(text: &str, keys: &Vec<String>) -> (r: Result<Vec<Option<JsonField>>, String>)
    ensures
        match r {
            Ok(f) => f@.len() == keys@.len() && json_fields_of(text@, strings_view(keys@))
                == Ok::<Seq<Option<FieldView>>, Seq<char>>(f@.map_values(|x: Option<JsonField>| opt_field_view(x))),
            Err(m) => json_fields_of(text@, strings_view(keys@)) == Err::<Seq<Option<FieldView>>, Seq<char>>(m@),
        },
{
    let value: serde_json::Value = serde_json::from_str(text).map_err(|error| error.to_string())?;
    Ok(keys.iter().map(|key| value.get(key.as_str()).map(|field| match field {
        serde_json::Value::String(s) => JsonField::Text(s.clone()),
        serde_json::Value::Array(items) => JsonField::List(items.iter().map(|item| item.as_str().map(String::from)).collect()),
        _ => JsonField::Other,
    })).collect())
}

pub open spec fn null_word() -> Seq<char> {
    seq!['n', 'u', 'l', 'l']
}

/// A generated value, cleaned like any metadata value; `null` also counts as none.
pub open spec fn clean_generated(s: Seq<char>) -> Option<Seq<char>> {
    let c = join(words(s), seq![' ']);
    if c.len() == 0 || eq_ignore_case(c, unknown_word()) || eq_ignore_case(c, null_word()) {
        None
    } else {
        Some(c)
    }
}

fn clean_generated_exec(v: &[char]) -> (r: Option<Vec<char>>)
    ensures
        opt_chars(r) == clean_generated(v@),
{
    let parts = words_exec(v);
    let sep: Vec<char> = vec![' '];
    assert(sep@ == seq![' ']);
    let c = join_all(&parts, &sep);
    proof {
        reveal_strlit("unknown");
        reveal_strlit("null");
        assert("unknown"@ == unknown_word());
        assert("null"@ == null_word());
    }
    if c.len() == 0 || eq_ignore_case_str(&c, "unknown") || eq_ignore_case_str(&c, "null") {
        None
    } else {
        Some(c)
    }
}

/// The clean values among the string items.
pub open spec fn clean_items(items: Seq<Option<Seq<char>>>) -> Seq<Seq<char>>
    decreases items.len(),
{
    if items.len() == 0 {
        seq![]
    } else {
        let r = clean_items(items.drop_last());
        match items.last() {
            Some(s) => match clean_generated(s) {
                Some(c) => r.push(c),
                None => r,
            },
            None => r,
        }
    }
}

/// The clean values among the pieces of a list given as one text.
pub open spec fn clean_pieces(parts: Seq<Seq<char>>) -> Seq<Seq<char>>
    decreases parts.len(),
{
    if parts.len() == 0 {
        seq![]
    } else {
        let r = clean_pieces(parts.drop_last());
        match clean_generated(parts.last()) {
            Some(c) => r.push(c),
            None => r,
        }
    }
}

/// A scalar field: a string cleaned, or an array's clean strings joined with
/// `, ` and cleaned again.
pub open spec fn metadata_string_spec(f: Option<FieldView>) -> Option<Seq<char>> {
    match f {
        Some(FieldView::Text(raw)) => clean_generated(raw),
        Some(FieldView::List(items)) => clean_generated(join(clean_items(items), ", "@)),
        _ => None,
    }
}

/// A list field: an array's clean strings, or a string split on `,` `;` and
/// line feeds, each piece cleaned.
pub open spec fn metadata_strings_spec(f: Option<FieldView>) -> Seq<Seq<char>> {
    match f {
        Some(FieldView::List(items)) => clean_items(items),
        Some(FieldView::Text(raw)) => clean_pieces(split_class(raw, CharClass::ListSeparator)),
        _ => seq![],
    }
}

fn clean_string_items(items: &Vec<Option<String>>) -> (r: Vec<Vec<char>>)
    ensures
        r.deep_view() == clean_items(items@.map_values(|o: Option<String>| opt_view(o))),
{
    broadcast use lemma_deep_view_chars;

    let ghost iv = items@.map_values(|o: Option<String>| opt_view(o));
    let mut r: Vec<Vec<char>> = Vec::new();
    let mut i: usize = 0;
    while i < items.len()
        invariant
            i <= items.len(),
            iv == items@.map_values(|o: Option<String>| opt_view(o)),
            r.deep_view() == clean_items(iv.take(i as int)),
        decreases items.len() - i,
    {
        assert(iv.take(i as int + 1).drop_last() == iv.take(i as int));
        assert(iv.take(i as int + 1).last() == opt_view(items@[i as int]));
        if let Some(s) = &items[i] {
            if let Some(c) = clean_generated_exec(&chars_of(s.as_str())) {
                let ghost before = r.deep_view();
                let ghost cv = c@;
                r.push(c);
                assert(r.deep_view() =~= before.push(cv)) by {
                    assert(r@.last().deep_view() == r@.last()@);
                }
            }
        }
        i += 1;
    }
    assert(iv.take(items.len() as int) == iv);
    r
}

fn clean_split_pieces(raw: &str) -> (r: Vec<Vec<char>>)
    ensures
        r.deep_view() == clean_pieces(split_class(raw@, CharClass::ListSeparator)),
{
    broadcast use lemma_deep_view_chars;

    let parts = split_class_exec(&chars_of(raw), CharClass::ListSeparator);
    let ghost pv = parts.deep_view();
    let mut r: Vec<Vec<char>> = Vec::new();
    let mut i: usize = 0;
    while i < parts.len()
        invariant
            i <= parts.len(),
            pv == parts.deep_view(),
            r.deep_view() == clean_pieces(pv.take(i as int)),
        decreases parts.len() - i,
    {
        assert(pv.take(i as int + 1).drop_last() == pv.take(i as int));
        assert(pv.take(i as int + 1).last() == parts[i as int]@);
        if let Some(c) = clean_generated_exec(&parts[i]) {
            let ghost before = r.deep_view();
            let ghost cv = c@;
            r.push(c);
            assert(r.deep_view() =~= before.push(cv)) by {
                assert(r@.last().deep_view() == r@.last()@);
            }
        }
        i += 1;
    }
    assert(pv.take(parts.len() as int) == pv);
    r
}

fn metadata_string(f: &Option<JsonField>) -> (r: Option<String>)
    ensures
        opt_view(r) == metadata_string_spec(opt_field_view(*f)),
{
    match f {
        Some(JsonField::Text(raw)) => match clean_generated_exec(&chars_of(raw.as_str())) {
            Some(c) => Some(string_of(&c)),
            None => None,
        },
        Some(JsonField::List(items)) => {
            let cleaned = clean_string_items(items);
            let joined = join_all(&cleaned, &chars_of(", "));
            match clean_generated_exec(&joined) {
                Some(c) => Some(string_of(&c)),
                None => None,
            }
        },
        _ => None,
    }
}

fn metadata_strings(f: &Option<JsonField>) -> (r: Vec<String>)
    ensures
        strings_view(r@) == metadata_strings_spec(opt_field_view(*f)),
{
    let pieces: Vec<Vec<char>> = match f {
        Some(JsonField::List(items)) => clean_string_items(items),
        Some(JsonField::Text(raw)) => clean_split_pieces(raw.as_str()),
        _ => Vec::new(),
    };
    let ghost pv = pieces.deep_view();
    assert(pv == metadata_strings_spec(opt_field_view(*f)));
    let mut r: Vec<String> = Vec::new();
    let mut i: usize = 0;
    while i < pieces.len()
        invariant
            i <= pieces.len(),
            pv == pieces.deep_view(),
            strings_view(r@) == pv.take(i as int),
        decreases pieces.len() - i,
    {
        let ghost before = r@;
        assert(pv[i as int] == pieces@[i as int]@);
        r.push(string_of(&pieces[i]));
        assert(strings_view(r@) =~= strings_view(before).push(pv[i as int]));
        assert(strings_view(r@) =~= pv.take(i as int + 1));
        i += 1;
    }
    assert(pv.take(pieces.len() as int) == pv);
    r
}

/// The keys that generated metadata is read from, in order.
pub open spec fn metadata_keys() -> Seq<Seq<char>> {
    seq!["title"@, "author"@, "language"@, "publisher"@, "description"@, "subjects"@]
}

/// Generated metadata from the fields `title`, `author`, `language`,
/// `publisher`, `description` and `subjects`; at most eight subjects.
pub open spec fn generated_metadata_spec(fields: Seq<Option<FieldView>>) -> MetadataView {
    MetadataView {
        title: metadata_string_spec(fields[0]),
        author: metadata_string_spec(fields[1]),
        language: metadata_string_spec(fields[2]),
        publisher: metadata_string_spec(fields[3]),
        description: metadata_string_spec(fields[4]),
        subjects: metadata_strings_spec(fields[5]).take(
            if metadata_strings_spec(fields[5]).len() < 8 { metadata_strings_spec(fields[5]).len() as int } else { 8 },
        ),
    }
}

/// Builds generated metadata from the looked-up fields.
pub fn generated_metadata_from_fields(fields: &Vec<Option<JsonField>>) -> (m: BookMetadata)
    requires
        fields.len() == 6,
    ensures
        m@ == generated_metadata_spec(fields@.map_values(|x: Option<JsonField>| opt_field_view(x))),
{
    let ghost fv = fields@.map_values(|x: Option<JsonField>| opt_field_view(x));
    let all_subjects = metadata_strings(&fields[5]);
    let mut subjects: Vec<String> = Vec::new();
    let mut i: usize = 0;
    while i < all_subjects.len() && i < 8
        invariant
            i <= all_subjects.len(),
            i <= 8,
            strings_view(subjects@) == strings_view(all_subjects@).take(i as int),
        decreases all_subjects.len() - i,
    {
        let ghost before = subjects@;
        let s = all_subjects[i].clone();
        assert(s@ == all_subjects@[i as int]@);
        subjects.push(s);
        assert(strings_view(subjects@) =~= strings_view(before).push(all_subjects@[i as int]@));
        assert(strings_view(subjects@) =~= strings_view(all_subjects@).take(i as int + 1));
        i += 1;
    }
    let m = BookMetadata {
        title: metadata_string(&fields[0]),
        author: metadata_string(&fields[1]),
        language: metadata_string(&fields[2]),
        publisher: metadata_string(&fields[3]),
        description: metadata_string(&fields[4]),
        subjects,
    };
    assert(strings_view(all_subjects@) == metadata_strings_spec(fv[5]));
    assert(fv[0] == opt_field_view(fields@[0]));
    assert(fv[1] == opt_field_view(fields@[1]));
    assert(fv[2] == opt_field_view(fields@[2]));
    assert(fv[3] == opt_field_view(fields@[3]));
    assert(fv[4] == opt_field_view(fields@[4]));
    assert(fv[5] == opt_field_view(fields@[5]));
    assert(m@ =~= generated_metadata_spec(fv));
    m
}

/// What a chat reply amounts to: no metadata when it holds no JSON object, the
/// parser's error when the object is malformed, else the metadata it gives.
pub open spec fn parse_generated_spec(content: Seq<char>) -> Result<MetadataView, Seq<char>> {
    match json_object_spec(content) {
        None => Ok(BookMetadata::empty_view()),
        Some(text) => match json_fields_of(text, metadata_keys()) {
            Err(e) => Err("Failed parsing generated metadata JSON: "@ + e),
            Ok(fields) => Ok(generated_metadata_spec(fields)),
        },
    }
}

/// Reads the metadata out of a chat reply.
pub fn parse_generated_metadata(content: &str) -> (r: Result<BookMetadata, BaegunError>)
    ensures
        match r {
            Ok(m) => parse_generated_spec(content@) == Ok::<MetadataView, Seq<char>>(m@),
            Err(e) => e.kind == ErrorKind::Api && parse_generated_spec(content@) == Err::<MetadataView, Seq<char>>(e.message@),
        },
{
    let text = match extract_json_object(content) {
        Some(t) => t,
        None => {
            return Ok(BookMetadata::empty());
        },
    };
    let keys: Vec<String> = vec![
        string_of(&chars_of("title")),
        string_of(&chars_of("author")),
        string_of(&chars_of("language")),
        string_of(&chars_of("publisher")),
        string_of(&chars_of("description")),
        string_of(&chars_of("subjects")),
    ];
    assert(strings_view(keys@) =~= metadata_keys());
    match json_fields(text.as_str(), &keys) {
        Ok(fields) => Ok(generated_metadata_from_fields(&fields)),
        Err(e) => Err(BaegunError::api(concat_str("Failed parsing generated metadata JSON: ", e.as_str()))),
    }
}

// ---------------------------------------------------------------------------
// Error replies and retries.
// ---------------------------------------------------------------------------

/// The strings that the JSON pointers `pointers` address in the JSON value
/// `body` holds (`None` for a pointer that addresses no string), or `None` when
/// `body` is not JSON.
pub uninterp spec fn json_strings_at_of(body: Seq<char>, pointers: Seq<Seq<char>>) -> Option<Seq<Option<Seq<char>>>>;

/// Parses `body` with `serde_json::from_str` into a `serde_json::Value` and
/// looks up each pointer with `Value::pointer`, keeping string values.
#[verifier::external_body]
fn json_strings_at(body: &str, pointers: &Vec<String>) -> (r: Option<Vec<Option<String>>>)
    ensures
        match r {
            Some(v) => v@.len() == pointers@.len() && json_strings_at_of(body@, strings_view(pointers@))
                == Some(v@.map_values(|o: Option<String>| opt_view(o))),
            None => json_strings_at_of(body@, strings_view(pointers@)) is None,
        },
{
    let value: serde_json::Value = serde_json::from_str(body).ok()?;
    Some(pointers.iter().map(|p| value.pointer(p.as_str()).and_then(serde_json::Value::as_str).map(String::from)).collect())
}

/// Where an error reply carries its message: `message`, then `error.message`.
pub open spec fn error_message_pointers() -> Seq<Seq<char>> {
    seq!["/message"@, "/error/message"@]
}

/// The two strings found at `error_message_pointers`, when the reply was JSON.
pub open spec fn error_messages_found(found: Option<Seq<Option<Seq<char>>>>) -> Option<(Option<Seq<char>>, Option<Seq<char>>)> {
    match found {
        Some(v) => Some((v[0], v[1])),
        None => None,
    }
}

/// The message to show for an error reply: its non-blank `message`, else its
/// non-blank `error.message`, else the reply itself, trimmed.
pub open spec fn api_error_message_spec(body: Seq<char>, messages: Option<(Option<Seq<char>>, Option<Seq<char>>)>) -> Seq<char> {
    match messages {
        Some((Some(m), _)) if !is_blank(m) => m,
        Some((_, Some(n))) if !is_blank(n) => n,
        _ => trim(body),
    }
}

/// Picks the message of an error reply from the strings found in it.
pub fn api_error_message(body: &str, messages: Option<(Option<String>, Option<String>)>) -> (r: String)
    ensures
        r@ == api_error_message_spec(body@, match messages {
            Some((a, b)) => Some((opt_view(a), opt_view(b))),
            None => None,
        }),
{
    if let Some((a, b)) = messages {
        if let Some(m) = a {
            if !crate::text::is_blank_exec(&chars_of(m.as_str())) {
                return m;
            }
        }
        if let Some(n) = b {
            if !crate::text::is_blank_exec(&chars_of(n.as_str())) {
                return n;
            }
        }
    }
    string_of(&trim_exec(&chars_of(body)))
}

/// The message of an error reply from the OCR or chat service.
pub fn decode_api_error_message(body: &str) -> (r: String)
    ensures
        r@ == api_error_message_spec(body@, error_messages_found(json_strings_at_of(body@, error_message_pointers()))),
{
    let pointers: Vec<String> = vec![string_of(&chars_of("/message")), string_of(&chars_of("/error/message"))];
    assert(strings_view(pointers@) =~= error_message_pointers());
    let messages = match json_strings_at(body, &pointers) {
        Some(mut found) => {
            let nested = found.pop().unwrap();
            let first = found.pop().unwrap();
            Some((first, nested))
        },
        None => None,
    };
    api_error_message(body, messages)
}

/// Whether a failed reply is worth another attempt: too many requests, or a
/// server error.
pub open spec fn retryable_spec(status: u16) -> bool {
    status == 429 || (500 <= status && status <= 599)
}

pub fn is_retryable_status(status: u16) -> (r: bool)
    ensures
        r == retryable_spec(status),
{
    status == 429 || (500 <= status && status <= 599)
}

/// OCR is attempted at most this many times.
pub const MAX_OCR_ATTEMPTS: u32 = 4;

/// The wait before the first retry, in milliseconds.
pub const FIRST_RETRY_DELAY_MS: u64 = 800;

/// After failed attempt number `attempt` (from 1), when the failure may be
/// retried and attempts remain: the wait now and the wait before the next
/// retry, which doubles (saturating).
pub open spec fn retry_spec(attempt: u32, delay_ms: u64, retryable: bool) -> Option<(u64, u64)> {
    if retryable && attempt < MAX_OCR_ATTEMPTS {
        Some((delay_ms, if delay_ms * 2 > u64::MAX { u64::MAX } else { (delay_ms * 2) as u64 }))
    } else {
        None
    }
}

pub fn next_retry(attempt: u32, delay_ms: u64, retryable: bool) -> (r: Option<(u64, u64)>)
    ensures
        r == retry_spec(attempt, delay_ms, retryable),
{
    if retryable && attempt < MAX_OCR_ATTEMPTS {
        let next = match delay_ms.checked_mul(2) {
            Some(d) => d,
            None => u64::MAX,
        };
        Some((delay_ms, next))
    } else {
        None
    }
}

} // verus!
