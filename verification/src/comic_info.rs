//! ComicInfo.xml: book metadata, reading direction and per-page flags, read
//! with `quick-xml` without DTDs or external entities.
use vstd::prelude::*;
use crate::cbz::MAX_COMIC_INFO_BYTES;
use crate::errors::{BaegunError, ErrorKind};
use crate::models::{BookMetadata, MetadataView};
use crate::text::{
    chars_eq_str, chars_of, concat_str, eq_ignore_case, eq_ignore_case_exec, eq_ignore_case_str,
    is_ascii_digit, opt_view, split_class, split_class_exec, string_of, strings_view, trim, trim_exec,
    CharClass,
};

verus! {

#[verifier::external_type_specification]
#[verifier::external_body]
#[verifier::reject_recursive_types(R)]
pub struct ExXmlReader<R>(quick_xml::Reader<R>);

#[verifier::external_type_specification]
#[verifier::external_body]
pub struct ExBytesStart<'a>(quick_xml::events::BytesStart<'a>);

#[verifier::external_type_specification]
#[verifier::external_body]
pub struct ExBytesText<'a>(quick_xml::events::BytesText<'a>);

#[verifier::external_type_specification]
#[verifier::external_body]
pub struct ExBytesCData<'a>(quick_xml::events::BytesCData<'a>);

#[verifier::external_type_specification]
#[verifier::external_body]
pub struct ExBytesRef<'a>(quick_xml::events::BytesRef<'a>);

/// The events of the XML reader that the parser looks at, with their payloads.
pub enum XmlEvent<'a> {
    Start(quick_xml::events::BytesStart<'a>),
    Empty(quick_xml::events::BytesStart<'a>),
    Text(quick_xml::events::BytesText<'a>),
    CData(quick_xml::events::BytesCData<'a>),
    GeneralRef(quick_xml::events::BytesRef<'a>),
    End,
    DocType,
    Eof,
    Other,
    Failed(String),
}

/// Reads the next event with `Reader::read_event`; a reader error becomes its message.
#[verifier::external_body]
fn next_xml_event<'a>(reader: &mut quick_xml::Reader<&'a [u8]>) -> XmlEvent<'a> {
    match reader.read_event() {
        Ok(quick_xml::events::Event::Start(e)) => XmlEvent::Start(e),
        Ok(quick_xml::events::Event::Empty(e)) => XmlEvent::Empty(e),
        Ok(quick_xml::events::Event::Text(e)) => XmlEvent::Text(e),
        Ok(quick_xml::events::Event::CData(e)) => XmlEvent::CData(e),
        Ok(quick_xml::events::Event::GeneralRef(e)) => XmlEvent::GeneralRef(e),
        Ok(quick_xml::events::Event::End(_)) => XmlEvent::End,
        Ok(quick_xml::events::Event::DocType(_)) => XmlEvent::DocType,
        Ok(quick_xml::events::Event::Eof) => XmlEvent::Eof,
        Ok(_) => XmlEvent::Other,
        Err(error) => XmlEvent::Failed(error.to_string()),
    }
}


/// Why the attributes of an element could not be read.
pub enum AttrFailure {
    Attribute(String),
    Value(String),
}

/// The element's name as text (`BytesStart::name`, decoded lossily).
#[verifier::external_body]
fn element_name(start: &quick_xml::events::BytesStart) -> String {
    String::from_utf8_lossy(start.name().as_ref()).into_owned()
}

/// The element's attributes, checked for duplicates, each key decoded lossily and
/// each value decoded and unescaped with the reader's decoder
/// (`Attribute::decode_and_unescape_value`).
#[verifier::external_body]
fn element_attributes(start: &quick_xml::events::BytesStart, reader: &quick_xml::Reader<&[u8]>) -> Result<Vec<(String, String)>, AttrFailure> {
    let mut pairs = Vec::new();
    for attribute in start.attributes().with_checks(true) {
        let attribute = attribute.map_err(|error| AttrFailure::Attribute(error.to_string()))?;
        let value = attribute.decode_and_unescape_value(reader.decoder()).map_err(|error| AttrFailure::Value(error.to_string()))?;
        pairs.push((String::from_utf8_lossy(attribute.key.as_ref()).into_owned(), value.into_owned()));
    }
    Ok(pairs)
}

/// Decodes a text event with `BytesText::decode`.
#[verifier::external_body]
fn decode_text(text: &quick_xml::events::BytesText) -> Result<String, String> {
    text.decode().map(|value| value.into_owned()).map_err(|error| error.to_string())
}

/// Decodes a CDATA event with `BytesCData::decode`.
#[verifier::external_body]
fn decode_cdata(text: &quick_xml::events::BytesCData) -> Result<String, String> {
    text.decode().map(|value| value.into_owned()).map_err(|error| error.to_string())
}

/// The character of a character reference (`BytesRef::resolve_char_ref`); `None`
/// for a named entity.
#[verifier::external_body]
fn char_reference(reference: &quick_xml::events::BytesRef) -> Result<Option<char>, String> {
    reference.resolve_char_ref().map_err(|error| error.to_string())
}

/// The name of an entity reference (`BytesRef::decode`).
#[verifier::external_body]
fn reference_name(reference: &quick_xml::events::BytesRef) -> Result<String, String> {
    reference.decode().map(|value| value.into_owned()).map_err(|error| error.to_string())
}

/// One event of a ComicInfo.xml document, as plain values.
pub enum ComicEvent {
    Start { name: String, attributes: Result<Vec<(String, String)>, AttrFailure> },
    Empty { name: String, attributes: Result<Vec<(String, String)>, AttrFailure> },
    Text(Result<String, String>),
    CData(Result<String, String>),
    Reference { char_ref: Result<Option<char>, String>, name: Result<String, String> },
    End,
    DocType,
    Eof,
    Failed(String),
    Other,
}

/// What ComicInfo.xml says of one page.
#[derive(Debug, Clone, Copy, PartialEq, Eq, Structural)]
pub struct ComicInfoPage {
    pub image_index: usize,
    pub deleted: bool,
    pub front_cover: bool,
}

// ---------------------------------------------------------------------------
// Page attributes.
// ---------------------------------------------------------------------------

pub open spec fn digits_value(d: Seq<char>) -> nat
    decreases d.len(),
{
    if d.len() == 0 {
        0
    } else {
        digits_value(d.drop_last()) * 10 + (d.last() as nat - '0' as nat) as nat
    }
}

pub open spec fn all_digits(d: Seq<char>) -> bool {
    forall|i: int| 0 <= i < d.len() ==> is_ascii_digit(#[trigger] d[i])
}

/// `usize::from_str`: an optional `+`, then decimal digits, within range.
pub open spec fn parse_usize_spec(s: Seq<char>) -> Option<usize> {
    let d = if s.len() > 1 && s[0] == '+' {
        s.drop_first()
    } else {
        s
    };
    if d.len() > 0 && all_digits(d) && digits_value(d) <= usize::MAX {
        Some(digits_value(d) as usize)
    } else {
        None
    }
}

proof fn lemma_digits_value_prefix(d: Seq<char>, n: int)
    requires
        0 <= n <= d.len(),
        all_digits(d),
    ensures
        digits_value(d.take(n)) <= digits_value(d),
    decreases d.len() - n,
{
    if n < d.len() {
        lemma_digits_value_prefix(d, n + 1);
        assert(d.take(n + 1).drop_last() == d.take(n));
        assert(is_ascii_digit(d[n]));
    } else {
        assert(d.take(n) == d);
    }
}

pub fn parse_usize(s: &str) -> (r: Option<usize>)
    ensures
        r == parse_usize_spec(s@),
{
    let v = chars_of(s);
    let start: usize = if v.len() > 1 && v[0] == '+' {
        1
    } else {
        0
    };
    let ghost d = if s@.len() > 1 && s@[0] == '+' {
        s@.drop_first()
    } else {
        s@
    };
    assert(d == v@.subrange(start as int, v.len() as int));
    if start >= v.len() {
        return None;
    }
    let mut value: usize = 0;
    let mut i = start;
    while i < v.len()
        invariant
            start <= i <= v.len(),
            d == v@.subrange(start as int, v.len() as int),
            d == (if s@.len() > 1 && s@[0] == '+' {
                s@.drop_first()
            } else {
                s@
            }),
            d.len() > 0,
            all_digits(d.take(i - start)),
            value == digits_value(d.take(i - start)),
        decreases v.len() - i,
    {
        let c = v[i];
        assert(d[i - start] == c);
        if c < '0' || c > '9' {
            assert(!all_digits(d));
            return None;
        }
        let digit = (c as u32 - '0' as u32) as usize;
        assert(d.take(i - start + 1).drop_last() == d.take(i - start));
        assert(all_digits(d.take(i - start + 1)));
        match value.checked_mul(10) {
            Some(m) => match m.checked_add(digit) {
                Some(n) => {
                    value = n;
                },
                None => {
                    proof {
                        if all_digits(d) {
                            lemma_digits_value_prefix(d, i - start + 1);
                        }
                    }
                    return None;
                },
            },
            None => {
                proof {
                    if all_digits(d) {
                        lemma_digits_value_prefix(d, i - start + 1);
                    }
                }
                return None;
            },
        }
        i += 1;
    }
    assert(d.take(i - start) == d);
    Some(value)
}

/// The flags of a page: its `Type` split on white space, `,` `;` and `|`, any
/// token being `Deleted` or `FrontCover` in any ASCII case.
pub open spec fn has_token(tokens: Seq<Seq<char>>, word: Seq<char>) -> bool {
    exists|k: int| 0 <= k < tokens.len() && eq_ignore_case(#[trigger] tokens[k], word)
}

/// The last `Type` value and the last `Image` value (parsed) among the attributes,
/// from the first `n`.
pub open spec fn page_type_image(attrs: Seq<(String, String)>, n: int) -> (Option<Seq<char>>, Option<usize>)
    decreases n,
{
    if n <= 0 {
        (None, None)
    } else {
        let prev = page_type_image(attrs, n - 1);
        let (k, v) = attrs[n - 1];
        if eq_ignore_case(k@, "Type"@) {
            (Some(v@), prev.1)
        } else if eq_ignore_case(k@, "Image"@) {
            (prev.0, parse_usize_spec(v@))
        } else {
            prev
        }
    }
}

/// A `Page` element's record: its `Image` index, else its position among pages.
pub open spec fn page_spec(attrs: Seq<(String, String)>, fallback: usize) -> ComicInfoPage {
    let (page_type, image) = page_type_image(attrs, attrs.len() as int);
    let tokens = match page_type {
        Some(t) => split_class(t, CharClass::TokenSeparator),
        None => seq![],
    };
    ComicInfoPage {
        image_index: match image {
            Some(i) => i,
            None => fallback,
        },
        deleted: has_token(tokens, "Deleted"@),
        front_cover: has_token(tokens, "FrontCover"@),
    }
}

fn any_token(tokens: &Vec<Vec<char>>, word: &str) -> (r: bool)
    ensures
        r == has_token(tokens.deep_view(), word@),
{
    let mut k: usize = 0;
    while k < tokens.len()
        invariant
            k <= tokens.len(),
            forall|j: int| 0 <= j < k ==> !eq_ignore_case(#[trigger] tokens.deep_view()[j], word@),
        decreases tokens.len() - k,
    {
        assert(tokens.deep_view()[k as int] == tokens[k as int]@);
        if eq_ignore_case_str(&tokens[k], word) {
            return true;
        }
        k += 1;
    }
    false
}

/// Reads a `Page` element's attributes.
pub fn page_from_attributes(attrs: &Vec<(String, String)>, fallback: usize) -> (p: ComicInfoPage)
    ensures
        p == page_spec(attrs@, fallback),
{
    let mut page_type: Option<String> = None;
    let mut image: Option<usize> = None;
    let mut i: usize = 0;
    while i < attrs.len()
        invariant
            i <= attrs.len(),
            (opt_view(page_type), image) == page_type_image(attrs@, i as int),
        decreases attrs.len() - i,
    {
        let key = chars_of(attrs[i].0.as_str());
        if eq_ignore_case_str(&key, "Type") {
            page_type = Some(attrs[i].1.clone());
        } else if eq_ignore_case_str(&key, "Image") {
            image = parse_usize(attrs[i].1.as_str());
        }
        i += 1;
    }
    let tokens: Vec<Vec<char>> = match &page_type {
        Some(t) => split_class_exec(&chars_of(t.as_str()), CharClass::TokenSeparator),
        None => Vec::new(),
    };
    assert(tokens.deep_view() == (match opt_view(page_type) {
        Some(t) => split_class(t, CharClass::TokenSeparator),
        None => Seq::<Seq<char>>::empty(),
    }));
    ComicInfoPage {
        image_index: match image {
            Some(i) => i,
            None => fallback,
        },
        deleted: any_token(&tokens, "Deleted"),
        front_cover: any_token(&tokens, "FrontCover"),
    }
}


// ---------------------------------------------------------------------------
// Events.
// ---------------------------------------------------------------------------

/// The open elements, the text collected per element name, and the pages so far.
#[verifier::ext_equal]
pub struct ComicStateView {
    pub stack: Seq<Seq<char>>,
    pub values: Seq<(Seq<char>, Seq<char>)>,
    pub pages: Seq<ComicInfoPage>,
}

pub enum StepOutcome {
    Go(ComicStateView),
    Done(ComicStateView),
    Fail(Seq<char>),
}

/// The index of the entry for `key`, if there is one.
pub open spec fn key_index(values: Seq<(Seq<char>, Seq<char>)>, key: Seq<char>) -> int
    decreases values.len(),
{
    if values.len() == 0 {
        -1
    } else if values.last().0 == key {
        values.len() - 1
    } else {
        key_index(values.drop_last(), key)
    }
}

/// `text` appended to what was collected for `key`.
pub open spec fn append_value(values: Seq<(Seq<char>, Seq<char>)>, key: Seq<char>, text: Seq<char>) -> Seq<(Seq<char>, Seq<char>)> {
    let k = key_index(values, key);
    if k < 0 {
        values.push((key, text))
    } else {
        values.update(k, (key, values[k].1 + text))
    }
}

/// The text of a reference: a character reference's character, or one of the
/// five predefined entities; anything else is refused.
pub open spec fn reference_value(char_ref: Result<Option<char>, String>, name: Result<String, String>) -> Result<Seq<char>, Seq<char>> {
    match char_ref {
        Err(e) => Err("Invalid ComicInfo.xml character reference: "@ + e@),
        Ok(Some(c)) => Ok(seq![c]),
        Ok(None) => match name {
            Err(e) => Err("Invalid ComicInfo.xml entity reference: "@ + e@),
            Ok(n) => if n@ == "amp"@ {
                Ok("&"@)
            } else if n@ == "lt"@ {
                Ok("<"@)
            } else if n@ == "gt"@ {
                Ok(">"@)
            } else if n@ == "apos"@ {
                Ok("'"@)
            } else if n@ == "quot"@ {
                Ok("\""@)
            } else {
                Err("ComicInfo.xml entity '&"@ + n@ + ";' is not allowed."@)
            },
        },
    }
}

pub open spec fn attr_failure_message(f: AttrFailure) -> Seq<char> {
    match f {
        AttrFailure::Attribute(e) => "Invalid ComicInfo.xml attribute: "@ + e@,
        AttrFailure::Value(e) => "Invalid ComicInfo.xml attribute value: "@ + e@,
    }
}

/// The page that an element adds, when it is a `Page` element.
pub open spec fn element_page(name: Seq<char>, attributes: Result<Vec<(String, String)>, AttrFailure>, st: ComicStateView) -> Result<Option<ComicInfoPage>, Seq<char>> {
    if eq_ignore_case(name, "Page"@) {
        match attributes {
            Err(f) => Err(attr_failure_message(f)),
            Ok(a) => Ok(Some(page_spec(a@, st.pages.len() as usize))),
        }
    } else {
        Ok(None)
    }
}

pub open spec fn with_page(st: ComicStateView, p: Option<ComicInfoPage>) -> ComicStateView {
    match p {
        Some(page) => ComicStateView { pages: st.pages.push(page), ..st },
        None => st,
    }
}

pub open spec fn with_text(st: ComicStateView, text: Seq<char>) -> ComicStateView {
    ComicStateView { values: append_value(st.values, st.stack.last(), text), ..st }
}

/// What one event does: open elements are tracked, text and references are
/// collected for the innermost open element, `Page` elements become pages; a DTD,
/// a reader error or a bad value stops with an error.
pub open spec fn comic_step(st: ComicStateView, ev: ComicEvent) -> StepOutcome {
    match ev {
        ComicEvent::Start { name, attributes } => match element_page(name@, attributes, st) {
            Err(m) => StepOutcome::Fail(m),
            Ok(p) => StepOutcome::Go(ComicStateView { stack: st.stack.push(name@), ..with_page(st, p) }),
        },
        ComicEvent::Empty { name, attributes } => match element_page(name@, attributes, st) {
            Err(m) => StepOutcome::Fail(m),
            Ok(p) => StepOutcome::Go(with_page(st, p)),
        },
        ComicEvent::Text(t) => if st.stack.len() == 0 {
            StepOutcome::Go(st)
        } else {
            match t {
                Err(e) => StepOutcome::Fail("Invalid ComicInfo.xml text: "@ + e@),
                Ok(v) => StepOutcome::Go(with_text(st, v@)),
            }
        },
        ComicEvent::CData(t) => if st.stack.len() == 0 {
            StepOutcome::Go(st)
        } else {
            match t {
                Err(e) => StepOutcome::Fail("Invalid ComicInfo.xml CDATA: "@ + e@),
                Ok(v) => StepOutcome::Go(with_text(st, v@)),
            }
        },
        ComicEvent::Reference { char_ref, name } => if st.stack.len() == 0 {
            StepOutcome::Go(st)
        } else {
            match reference_value(char_ref, name) {
                Err(m) => StepOutcome::Fail(m),
                Ok(v) => StepOutcome::Go(with_text(st, v)),
            }
        },
        ComicEvent::End => StepOutcome::Go(ComicStateView {
            stack: if st.stack.len() == 0 {
                st.stack
            } else {
                st.stack.drop_last()
            },
            ..st
        }),
        ComicEvent::DocType => StepOutcome::Fail("ComicInfo.xml DTDs and external entities are not allowed."@),
        ComicEvent::Eof => StepOutcome::Done(st),
        ComicEvent::Failed(e) => StepOutcome::Fail("Invalid ComicInfo.xml: "@ + e@),
        ComicEvent::Other => StepOutcome::Go(st),
    }
}

/// The state after the events from `i` on, up to the end of the document.
pub open spec fn comic_run(events: Seq<ComicEvent>, i: int, st: ComicStateView) -> Result<ComicStateView, Seq<char>>
    decreases events.len() - i,
{
    if i < 0 || i >= events.len() {
        Ok(st)
    } else {
        match comic_step(st, events[i]) {
            StepOutcome::Go(s) => comic_run(events, i + 1, s),
            StepOutcome::Done(s) => Ok(s),
            StepOutcome::Fail(m) => Err(m),
        }
    }
}

pub open spec fn empty_state() -> ComicStateView {
    ComicStateView { stack: seq![], values: seq![], pages: seq![] }
}

/// The trimmed text collected for the first element named `name` in any ASCII
/// case; nothing when it is blank.
pub open spec fn value_of(values: Seq<(Seq<char>, Seq<char>)>, name: Seq<char>) -> Option<Seq<char>>
    decreases values.len(),
{
    if values.len() == 0 {
        None
    } else if eq_ignore_case(values[0].0, name) {
        let t = trim(values[0].1);
        if t.len() == 0 {
            None
        } else {
            Some(t)
        }
    } else {
        value_of(values.drop_first(), name)
    }
}

/// A ComicInfo.xml document's metadata, reading direction and pages.
#[derive(Debug)]
pub struct ComicInfo {
    pub metadata: BookMetadata,
    pub right_to_left: bool,
    pub pages: Vec<ComicInfoPage>,
}

impl ComicInfo {
    /// No ComicInfo.xml: no metadata, left to right, no page records.
    pub fn empty() -> (c: Self)
        ensures
            c.metadata@ == BookMetadata::empty_view(),
            !c.right_to_left,
            c.pages@.len() == 0,
    {
        ComicInfo { metadata: BookMetadata::empty(), right_to_left: false, pages: Vec::new() }
    }
}

/// What the collected values and pages amount to.
pub open spec fn comic_info_view(st: ComicStateView) -> (MetadataView, bool, Seq<ComicInfoPage>) {
    (
        MetadataView {
            title: value_of(st.values, "Title"@),
            author: value_of(st.values, "Writer"@),
            language: value_of(st.values, "LanguageISO"@),
            publisher: value_of(st.values, "Publisher"@),
            description: value_of(st.values, "Summary"@),
            subjects: seq![],
        },
        value_of(st.values, "Manga"@) matches Some(m) && eq_ignore_case(trim(m), "YesAndRightToLeft"@),
        st.pages,
    )
}

/// The ComicInfo that a document with these events describes, or its error.
pub open spec fn comic_info_spec(events: Seq<ComicEvent>) -> Result<(MetadataView, bool, Seq<ComicInfoPage>), Seq<char>> {
    match comic_run(events, 0, empty_state()) {
        Ok(st) => Ok(comic_info_view(st)),
        Err(m) => Err(m),
    }
}


pub open spec fn pairs_view(v: Seq<(String, String)>) -> Seq<(Seq<char>, Seq<char>)> {
    v.map_values(|p: (String, String)| (p.0@, p.1@))
}

struct ComicState {
    stack: Vec<String>,
    values: Vec<(String, String)>,
    pages: Vec<ComicInfoPage>,
}

spec fn state_view(st: ComicState) -> ComicStateView {
    ComicStateView { stack: strings_view(st.stack@), values: pairs_view(st.values@), pages: st.pages@ }
}

fn append_value_exec(values: &mut Vec<(String, String)>, key: &String, text: &str)
    ensures
        pairs_view(final(values)@) == append_value(pairs_view(old(values)@), key@, text@),
{
    let ghost pv = pairs_view(values@);
    let mut k = values.len();
    assert(pv.take(k as int) == pv);
    while k > 0
        invariant
            k <= values.len(),
            pv == pairs_view(values@),
            values@ == old(values)@,
            key_index(pv, key@) == key_index(pv.take(k as int), key@),
        decreases k,
    {
        let ghost pre = pv.take(k as int);
        assert(pre.drop_last() == pv.take(k as int - 1));
        assert(pre.last() == (values@[k as int - 1].0@, values@[k as int - 1].1@));
        if chars_eq_str(&chars_of(values[k - 1].0.as_str()), key.as_str()) {
            assert(key_index(pre, key@) == k - 1);
            let joined = concat_str(values[k - 1].1.as_str(), text);
            let ghost before = values@;
            values.set(k - 1, (key.clone(), joined));
            proof {
                assert(pairs_view(values@) =~= pv.update(k - 1, (key@, pv[k - 1].1 + text@)));
                assert(key_index(pv, key@) == k - 1);
                assert(append_value(pv, key@, text@) == pv.update(k - 1, (key@, pv[k - 1].1 + text@)));
            }
            return;
        }
        k -= 1;
    }
    assert(pv.take(0) =~= Seq::<(Seq<char>, Seq<char>)>::empty());
    let ghost before = values@;
    values.push((key.clone(), concat_str(text, "")));
    proof {
        reveal_strlit("");
        assert(pairs_view(values@) =~= pv.push((key@, text@)));
    }
}

fn reference_value_exec(char_ref: &Result<Option<char>, String>, name: &Result<String, String>) -> (r: Result<String, BaegunError>)
    ensures
        match r {
            Ok(v) => reference_value(*char_ref, *name) == Ok::<Seq<char>, Seq<char>>(v@),
            Err(e) => e.kind == ErrorKind::BadArgs && reference_value(*char_ref, *name) == Err::<Seq<char>, Seq<char>>(e.message@),
        },
{
    proof {
        reveal_strlit("");
    }
    match char_ref {
        Err(e) => Err(BaegunError::bad_args(concat_str("Invalid ComicInfo.xml character reference: ", e.as_str()))),
        Ok(Some(c)) => {
            let v: Vec<char> = vec![*c];
            assert(v@ == seq![*c]);
            Ok(string_of(&v))
        },
        Ok(None) => match name {
            Err(e) => Err(BaegunError::bad_args(concat_str("Invalid ComicInfo.xml entity reference: ", e.as_str()))),
            Ok(n) => {
                let nv = chars_of(n.as_str());
                if chars_eq_str(&nv, "amp") {
                    Ok(concat_str("&", ""))
                } else if chars_eq_str(&nv, "lt") {
                    Ok(concat_str("<", ""))
                } else if chars_eq_str(&nv, "gt") {
                    Ok(concat_str(">", ""))
                } else if chars_eq_str(&nv, "apos") {
                    Ok(concat_str("'", ""))
                } else if chars_eq_str(&nv, "quot") {
                    Ok(concat_str("\"", ""))
                } else {
                    let a = concat_str("ComicInfo.xml entity '&", n.as_str());
                    Err(BaegunError::bad_args(concat_str(a.as_str(), ";' is not allowed.")))
                }
            },
        },
    }
}

fn element_page_exec(name: &String, attributes: &Result<Vec<(String, String)>, AttrFailure>, st: &ComicState) -> (r: Result<Option<ComicInfoPage>, BaegunError>)
    ensures
        match r {
            Ok(p) => element_page(name@, *attributes, state_view(*st)) == Ok::<Option<ComicInfoPage>, Seq<char>>(p),
            Err(e) => e.kind == ErrorKind::BadArgs && element_page(name@, *attributes, state_view(*st)) == Err::<Option<ComicInfoPage>, Seq<char>>(e.message@),
        },
{
    if !eq_ignore_case_str(&chars_of(name.as_str()), "Page") {
        return Ok(None);
    }
    match attributes {
        Err(AttrFailure::Attribute(e)) => Err(BaegunError::bad_args(concat_str("Invalid ComicInfo.xml attribute: ", e.as_str()))),
        Err(AttrFailure::Value(e)) => Err(BaegunError::bad_args(concat_str("Invalid ComicInfo.xml attribute value: ", e.as_str()))),
        Ok(a) => Ok(Some(page_from_attributes(a, st.pages.len()))),
    }
}

fn push_page(st: &mut ComicState, p: Option<ComicInfoPage>)
    ensures
        state_view(*final(st)) == with_page(state_view(*old(st)), p),
{
    if let Some(page) = p {
        st.pages.push(page);
    }
    assert(state_view(*st) =~= with_page(state_view(*old(st)), p));
}

fn push_text(st: &mut ComicState, text: &str)
    requires
        old(st).stack.len() > 0,
    ensures
        state_view(*final(st)) == with_text(state_view(*old(st)), text@),
{
    let key = st.stack[st.stack.len() - 1].clone();
    assert(strings_view(st.stack@).last() == key@);
    append_value_exec(&mut st.values, &key, text);
}

/// Applies one event; `true` once the document has ended.
fn comic_step_exec(st: &mut ComicState, ev: &ComicEvent) -> (r: Result<bool, BaegunError>)
    ensures
        match r {
            Ok(true) => comic_step(state_view(*old(st)), *ev) == StepOutcome::Done(state_view(*final(st))),
            Ok(false) => comic_step(state_view(*old(st)), *ev) == StepOutcome::Go(state_view(*final(st))),
            Err(e) => e.kind == ErrorKind::BadArgs && comic_step(state_view(*old(st)), *ev) == StepOutcome::Fail(e.message@),
        },
{
    proof {
        reveal_strlit("");
    }
    match ev {
        ComicEvent::Start { name, attributes } => {
            let p = element_page_exec(name, attributes, st)?;
            push_page(st, p);
            let ghost mid = state_view(*st);
            st.stack.push(name.clone());
            assert(state_view(*st) =~= ComicStateView { stack: mid.stack.push(name@), ..mid });
            Ok(false)
        },
        ComicEvent::Empty { name, attributes } => {
            let p = element_page_exec(name, attributes, st)?;
            push_page(st, p);
            Ok(false)
        },
        ComicEvent::Text(t) => {
            if st.stack.len() == 0 {
                return Ok(false);
            }
            match t {
                Err(e) => Err(BaegunError::bad_args(concat_str("Invalid ComicInfo.xml text: ", e.as_str()))),
                Ok(v) => {
                    push_text(st, v.as_str());
                    Ok(false)
                },
            }
        },
        ComicEvent::CData(t) => {
            if st.stack.len() == 0 {
                return Ok(false);
            }
            match t {
                Err(e) => Err(BaegunError::bad_args(concat_str("Invalid ComicInfo.xml CDATA: ", e.as_str()))),
                Ok(v) => {
                    push_text(st, v.as_str());
                    Ok(false)
                },
            }
        },
        ComicEvent::Reference { char_ref, name } => {
            if st.stack.len() == 0 {
                return Ok(false);
            }
            let v = reference_value_exec(char_ref, name)?;
            push_text(st, v.as_str());
            Ok(false)
        },
        ComicEvent::End => {
            let ghost before = state_view(*st);
            if st.stack.len() > 0 {
                st.stack.pop();
            }
            assert(state_view(*st) =~= ComicStateView {
                stack: if before.stack.len() == 0 {
                    before.stack
                } else {
                    before.stack.drop_last()
                },
                ..before
            });
            Ok(false)
        },
        ComicEvent::DocType => Err(BaegunError::bad_args(concat_str("ComicInfo.xml DTDs and external entities are not allowed.", ""))),
        ComicEvent::Eof => Ok(true),
        ComicEvent::Failed(e) => Err(BaegunError::bad_args(concat_str("Invalid ComicInfo.xml: ", e.as_str()))),
        ComicEvent::Other => Ok(false),
    }
}


fn value_of_exec(values: &Vec<(String, String)>, name: &str) -> (r: Option<String>)
    ensures
        opt_view(r) == value_of(pairs_view(values@), name@),
{
    let ghost pv = pairs_view(values@);
    let mut k: usize = 0;
    assert(pv.subrange(0, pv.len() as int) == pv);
    while k < values.len()
        invariant
            k <= values.len(),
            pv == pairs_view(values@),
            value_of(pv.subrange(k as int, pv.len() as int), name@) == value_of(pv, name@),
        decreases values.len() - k,
    {
        let ghost rest = pv.subrange(k as int, pv.len() as int);
        assert(rest[0] == (values@[k as int].0@, values@[k as int].1@));
        if eq_ignore_case_str(&chars_of(values[k].0.as_str()), name) {
            let t = trim_exec(&chars_of(values[k].1.as_str()));
            if t.len() == 0 {
                return None;
            }
            return Some(string_of(&t));
        }
        assert(rest.drop_first() == pv.subrange(k as int + 1, pv.len() as int));
        k += 1;
    }
    None
}

/// The ComicInfo that a document's events describe.
pub fn comic_info_from_events(events: &Vec<ComicEvent>) -> (r: Result<ComicInfo, BaegunError>)
    ensures
        match r {
            Ok(c) => comic_info_spec(events@) == Ok::<(MetadataView, bool, Seq<ComicInfoPage>), Seq<char>>(
                (c.metadata@, c.right_to_left, c.pages@),
            ),
            Err(e) => e.kind == ErrorKind::BadArgs && comic_info_spec(events@) == Err::<(MetadataView, bool, Seq<ComicInfoPage>), Seq<char>>(e.message@),
        },
{
    let mut st = ComicState { stack: Vec::new(), values: Vec::new(), pages: Vec::new() };
    assert(state_view(st) =~= empty_state());
    let mut i: usize = 0;
    let mut done = false;
    while i < events.len() && !done
        invariant
            i <= events.len(),
            done ==> comic_run(events@, 0, empty_state()) == Ok::<ComicStateView, Seq<char>>(state_view(st)),
            !done ==> comic_run(events@, 0, empty_state()) == comic_run(events@, i as int, state_view(st)),
        decreases events.len() - i,
    {
        let ghost before = state_view(st);
        match comic_step_exec(&mut st, &events[i]) {
            Ok(true) => {
                done = true;
            },
            Ok(false) => {},
            Err(e) => {
                return Err(e);
            },
        }
        i += 1;
    }
    let title = value_of_exec(&st.values, "Title");
    let author = value_of_exec(&st.values, "Writer");
    let language = value_of_exec(&st.values, "LanguageISO");
    let publisher = value_of_exec(&st.values, "Publisher");
    let description = value_of_exec(&st.values, "Summary");
    let manga = value_of_exec(&st.values, "Manga");
    let right_to_left = match &manga {
        Some(m) => eq_ignore_case_str(&trim_exec(&chars_of(m.as_str())), "YesAndRightToLeft"),
        None => false,
    };
    let metadata = BookMetadata { title, author, language, publisher, description, subjects: Vec::new() };
    let ghost sv = state_view(st);
    assert(metadata@ =~= comic_info_view(sv).0);
    Ok(ComicInfo { metadata, right_to_left, pages: st.pages })
}

/// The event as plain values keeps the reader's kind of event, and a reader
/// failure's message.
pub open spec fn same_event_kind(ev: XmlEvent, r: ComicEvent) -> bool {
    match ev {
        XmlEvent::Start(_) => r is Start,
        XmlEvent::Empty(_) => r is Empty,
        XmlEvent::Text(_) => r is Text,
        XmlEvent::CData(_) => r is CData,
        XmlEvent::GeneralRef(_) => r is Reference,
        XmlEvent::End => r is End,
        XmlEvent::DocType => r is DocType,
        XmlEvent::Eof => r is Eof,
        XmlEvent::Other => r is Other,
        XmlEvent::Failed(e) => r matches ComicEvent::Failed(m) && m@ == e@,
    }
}

fn comic_event<'a>(ev: XmlEvent<'a>, reader: &quick_xml::Reader<&'a [u8]>) -> (r: ComicEvent)
    ensures
        same_event_kind(ev, r),
{
    match ev {
        XmlEvent::Start(s) => ComicEvent::Start { name: element_name(&s), attributes: element_attributes(&s, reader) },
        XmlEvent::Empty(s) => ComicEvent::Empty { name: element_name(&s), attributes: element_attributes(&s, reader) },
        XmlEvent::Text(t) => ComicEvent::Text(decode_text(&t)),
        XmlEvent::CData(t) => ComicEvent::CData(decode_cdata(&t)),
        XmlEvent::GeneralRef(r) => ComicEvent::Reference { char_ref: char_reference(&r), name: reference_name(&r) },
        XmlEvent::End => ComicEvent::End,
        XmlEvent::DocType => ComicEvent::DocType,
        XmlEvent::Eof => ComicEvent::Eof,
        XmlEvent::Other => ComicEvent::Other,
        XmlEvent::Failed(e) => ComicEvent::Failed(e),
    }
}

/// Whether `r` is what `comic_info_from_events` gives for the events `evs`.
pub open spec fn describes_events(evs: Seq<ComicEvent>, r: Result<ComicInfo, BaegunError>) -> bool {
    match r {
        Ok(c) => comic_info_spec(evs) == Ok::<(MetadataView, bool, Seq<ComicInfoPage>), Seq<char>>(
            (c.metadata@, c.right_to_left, c.pages@),
        ),
        Err(e) => e.kind == ErrorKind::BadArgs && comic_info_spec(evs) == Err::<(MetadataView, bool, Seq<ComicInfoPage>), Seq<char>>(e.message@),
    }
}

/// The events that quick-xml reads from a document, each in plain values
/// (element names and attributes, decoded text and CDATA, references), up to and
/// including the end of the document or the first reader error.
pub uninterp spec fn xml_events_of(bytes: Seq<u8>) -> Seq<ComicEvent>;

/// Reads a document with `quick_xml::Reader::from_reader` and `read_event` until
/// its end or the first reader error, each event taken into plain values by
/// `comic_event`.
#[verifier::external_body]
fn xml_events(bytes: &[u8]) -> (r: Vec<ComicEvent>)
    ensures
        r@ == xml_events_of(bytes@),
{
    let mut reader = quick_xml::Reader::from_reader(bytes);
    let mut events = Vec::new();
    loop {
        let event = comic_event(next_xml_event(&mut reader), &reader);
        let end = matches!(event, ComicEvent::Eof | ComicEvent::Failed(_));
        events.push(event);
        if end {
            return events;
        }
    }
}

/// Parses ComicInfo.xml: the document's events, as quick-xml reads them, are
/// interpreted by `comic_info_from_events`.
pub fn parse_comic_info(bytes: &[u8]) -> (r: Result<ComicInfo, BaegunError>)
    ensures
        bytes.len() > MAX_COMIC_INFO_BYTES ==> (r matches Err(e) && e.kind == ErrorKind::BadArgs
            && e.message@ == "ComicInfo.xml exceeds the 1048576-byte limit."@),
        bytes.len() <= MAX_COMIC_INFO_BYTES ==> describes_events(xml_events_of(bytes@), r),
        r matches Ok(c) ==> c.metadata@.subjects.len() == 0,
        r matches Err(e) ==> e.kind == ErrorKind::BadArgs,
{
    if bytes.len() as u64 > MAX_COMIC_INFO_BYTES {
        proof {
            reveal_strlit("");
        }
        return Err(BaegunError::bad_args(concat_str("ComicInfo.xml exceeds the 1048576-byte limit.", "")));
    }
    let events = xml_events(bytes);
    let r = comic_info_from_events(&events);
    assert(describes_events(events@, r));
    r
}

// ---------------------------------------------------------------------------
// Deleted pages and the cover.
// ---------------------------------------------------------------------------

/// Whether some page record marks image `i` as deleted.
pub open spec fn is_deleted(records: Seq<ComicInfoPage>, i: int) -> bool {
    exists|k: int| 0 <= k < records.len() && (#[trigger] records[k]).deleted && records[k].image_index == i
}

/// The image of the first record that marks a front cover which is not deleted.
pub open spec fn cover_record(records: Seq<ComicInfoPage>, from: int) -> Option<usize>
    decreases records.len() - from,
{
    if from < 0 || from >= records.len() {
        None
    } else if records[from].front_cover && !is_deleted(records, records[from].image_index as int) {
        Some(records[from].image_index)
    } else {
        cover_record(records, from + 1)
    }
}

/// The first `n` pages without the deleted ones, in order.
pub open spec fn kept_pages<T>(pages: Seq<T>, records: Seq<ComicInfoPage>, n: int) -> Seq<T>
    decreases n,
{
    if n <= 0 {
        seq![]
    } else {
        let r = kept_pages(pages, records, n - 1);
        if is_deleted(records, n - 1) {
            r
        } else {
            r.push(pages[n - 1])
        }
    }
}

/// Where the cover ends up once deleted pages are gone: the number of pages kept
/// before it, or the first page when there is no cover record for a page.
pub open spec fn remapped_cover<T>(pages: Seq<T>, records: Seq<ComicInfoPage>) -> int {
    match cover_record(records, 0) {
        Some(c) => if c < pages.len() {
            kept_pages(pages, records, c as int).len() as int
        } else {
            0
        },
        None => 0,
    }
}

fn is_deleted_exec(records: &[ComicInfoPage], i: usize) -> (r: bool)
    ensures
        r == is_deleted(records@, i as int),
{
    let mut k: usize = 0;
    while k < records.len()
        invariant
            k <= records.len(),
            forall|j: int| 0 <= j < k ==> !((#[trigger] records@[j]).deleted && records@[j].image_index == i),
        decreases records.len() - k,
    {
        if records[k].deleted && records[k].image_index == i {
            assert(records@[k as int].deleted);
            return true;
        }
        k += 1;
    }
    false
}

fn cover_record_exec(records: &[ComicInfoPage]) -> (r: Option<usize>)
    ensures
        r == cover_record(records@, 0),
{
    let mut k: usize = 0;
    while k < records.len()
        invariant
            k <= records.len(),
            cover_record(records@, k as int) == cover_record(records@, 0),
        decreases records.len() - k,
    {
        if records[k].front_cover && !is_deleted_exec(records, records[k].image_index) {
            return Some(records[k].image_index);
        }
        k += 1;
    }
    None
}

/// Drops the pages that ComicInfo.xml marks deleted and finds where the cover
/// page went.
pub fn apply_comic_info_pages<T>(pages: Vec<T>, metadata_pages: &[ComicInfoPage]) -> (r: (Vec<T>, usize))
    ensures
        r.0@ == kept_pages(pages@, metadata_pages@, pages@.len() as int),
        r.1 == remapped_cover(pages@, metadata_pages@),
{
    let ghost all = pages@;
    assert(all.len() == pages.len());
    let cover = cover_record_exec(metadata_pages);
    let mut rest = pages;
    let mut retained: Vec<T> = Vec::new();
    let mut remapped: Option<usize> = None;
    let mut index: usize = 0;
    while rest.len() > 0
        invariant
            index + rest.len() == all.len(),
            all.len() <= usize::MAX,
            rest@ == all.subrange(index as int, all.len() as int),
            retained@ == kept_pages(all, metadata_pages@, index as int),
            cover == cover_record(metadata_pages@, 0),
            remapped == (match cover {
                Some(c) => if c < index {
                    Some(kept_pages(all, metadata_pages@, c as int).len() as usize)
                } else {
                    None::<usize>
                },
                None => None::<usize>,
            }),
        decreases rest.len(),
    {
        let page = rest.remove(0);
        assert(page == all[index as int]);
        if !is_deleted_exec(metadata_pages, index) {
            if cover == Some(index) {
                remapped = Some(retained.len());
            }
            retained.push(page);
        } else {
            proof {
                if cover == Some(index) {
                    lemma_cover_not_deleted(metadata_pages@, 0);
                }
            }
        }
        assert(rest@ =~= all.subrange(index as int + 1, all.len() as int));
        index += 1;
    }
    proof {
        if let Some(cv) = cover {
            lemma_kept_len(all, metadata_pages@, cv as int);
        }
    }
    let c = match remapped {
        Some(v) => v,
        None => 0,
    };
    (retained, c)
}

proof fn lemma_kept_len<T>(pages: Seq<T>, records: Seq<ComicInfoPage>, n: int)
    ensures
        kept_pages(pages, records, n).len() <= if n < 0 { 0 } else { n },
    decreases n,
{
    if n > 0 {
        lemma_kept_len(pages, records, n - 1);
    }
}

proof fn lemma_cover_not_deleted(records: Seq<ComicInfoPage>, from: int)
    requires
        0 <= from,
    ensures
        cover_record(records, from) matches Some(c) ==> !is_deleted(records, c as int),
    decreases records.len() - from,
{
    if from < records.len() {
        lemma_cover_not_deleted(records, from + 1);
    }
}

proof fn lemma_kept_pages_prefix<T>(pages: Seq<T>, records: Seq<ComicInfoPage>, m: int, n: int)
    requires
        0 <= m <= n <= pages.len(),
    ensures
        kept_pages(pages, records, m).len() <= kept_pages(pages, records, n).len(),
        forall|j: int| 0 <= j < kept_pages(pages, records, m).len() ==> kept_pages(pages, records, n)[j]
            == kept_pages(pages, records, m)[j],
    decreases n - m,
{
    if m < n {
        lemma_kept_pages_prefix(pages, records, m, n - 1);
    }
}

/// The page that ComicInfo.xml names as the cover, when it is kept, is the page
/// at the remapped cover position.
pub proof fn lemma_cover_follows_its_page<T>(pages: Seq<T>, records: Seq<ComicInfoPage>)
    requires
        cover_record(records, 0) matches Some(c) && c < pages.len(),
    ensures
        ({
            let kept = kept_pages(pages, records, pages.len() as int);
            let c = cover_record(records, 0)->0;
            &&& 0 <= remapped_cover(pages, records) < kept.len()
            &&& kept[remapped_cover(pages, records)] == pages[c as int]
        }),
{
    let c = cover_record(records, 0)->0 as int;
    lemma_cover_not_deleted(records, 0);
    assert(kept_pages(pages, records, c + 1) == kept_pages(pages, records, c).push(pages[c]));
    lemma_kept_pages_prefix(pages, records, c + 1, pages.len() as int);
}

} // verus!
