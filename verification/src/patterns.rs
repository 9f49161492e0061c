//! Regular-expression matching, through the `regex` crate.
//!
//! What a pattern matches is the `regex` crate's business; this module names
//! those results so that the library's own logic can be stated over them.
use vstd::prelude::*;
use crate::text::{chars_of, opt_chars, opt_view, string_of};

verus! {

/// `regex_syntax::is_meta_character`.
pub open spec fn is_regex_meta(c: char) -> bool {
    c == '\\' || c == '.' || c == '+' || c == '*' || c == '?' || c == '(' || c == ')' || c == '|'
        || c == '[' || c == ']' || c == '{' || c == '}' || c == '^' || c == '$' || c == '#' || c
        == '&' || c == '-' || c == '~'
}

/// `regex::escape`: every meta character is preceded by a backslash.
pub open spec fn regex_escape_spec(s: Seq<char>) -> Seq<char>
    decreases s.len(),
{
    if s.len() == 0 {
        seq![]
    } else {
        let rest = regex_escape_spec(s.drop_last());
        if is_regex_meta(s.last()) {
            rest.push('\\').push(s.last())
        } else {
            rest.push(s.last())
        }
    }
}

fn is_regex_meta_exec(c: char) -> (r: bool)
    ensures
        r == is_regex_meta(c),
{
    c == '\\' || c == '.' || c == '+' || c == '*' || c == '?' || c == '(' || c == ')' || c == '|'
        || c == '[' || c == ']' || c == '{' || c == '}' || c == '^' || c == '$' || c == '#' || c
        == '&' || c == '-' || c == '~'
}

/// `regex::escape`: a pattern that matches `s` literally.
pub(crate) fn regex_escape(s: &str) -> (r: String)
    ensures
        r@ == regex_escape_spec(s@),
{
    let v = chars_of(s);
    let mut out: Vec<char> = Vec::new();
    let mut i: usize = 0;
    while i < v.len()
        invariant
            i <= v.len(),
            v@ == s@,
            out@ == regex_escape_spec(v@.take(i as int)),
        decreases v.len() - i,
    {
        assert(v@.take(i as int + 1).drop_last() =~= v@.take(i as int));
        assert(v@.take(i as int + 1).last() == v@[i as int]);
        if is_regex_meta_exec(v[i]) {
            out.push('\\');
        }
        out.push(v[i]);
        i += 1;
    }
    assert(v@.take(v.len() as int) =~= v@);
    string_of(&out)
}

/// The groups of a match: group 0 is the whole match, a group that did not
/// take part is `None`.
pub open spec fn groups_view(g: Seq<Option<String>>) -> Seq<Option<Seq<char>>> {
    g.map_values(|o: Option<String>| opt_view(o))
}

/// The groups of the leftmost-first match of `pattern` in `text`; `None` when the
/// pattern does not compile or does not match.
pub uninterp spec fn regex_first_captures(pattern: Seq<char>, text: Seq<char>) -> Option<
    Seq<Option<Seq<char>>>,
>;

/// Calls `Regex::new(pattern)` and then `Regex::captures(text)`.
#[verifier::external_body]
pub(crate) fn regex_captures(pattern: &str, text: &str) -> (r: Option<Vec<Option<String>>>)
    ensures
        r matches Some(g) ==> regex_first_captures(pattern@, text@) == Some(groups_view(g@)),
        r is None ==> regex_first_captures(pattern@, text@) is None,
{
    let caps = regex::Regex::new(pattern).ok()?.captures(text)?;
    Some(caps.iter().map(|g| g.map(|m| m.as_str().to_string())).collect())
}

/// Whether `pattern` matches somewhere in `text`; `None` when it does not compile.
pub uninterp spec fn regex_matches(pattern: Seq<char>, text: Seq<char>) -> Option<bool>;

/// Calls `Regex::new(pattern)` and then `Regex::is_match(text)`.
#[verifier::external_body]
pub(crate) fn regex_is_match(pattern: &str, text: &str) -> (r: Option<bool>)
    ensures
        r == regex_matches(pattern@, text@),
{
    Some(regex::Regex::new(pattern).ok()?.is_match(text))
}

/// `text` with every match of `pattern` replaced by `replacement` (in which `$name`
/// refers to groups); `None` when the pattern does not compile.
pub uninterp spec fn regex_replaced(
    pattern: Seq<char>,
    text: Seq<char>,
    replacement: Seq<char>,
) -> Option<Seq<char>>;

/// Calls `Regex::new(pattern)` and then `Regex::replace_all(text, replacement)`.
#[verifier::external_body]
pub(crate) fn regex_replace_all(pattern: &str, text: &str, replacement: &str) -> (r: Option<
    String,
>)
    ensures
        opt_view(r) == regex_replaced(pattern@, text@, replacement@),
{
    Some(regex::Regex::new(pattern).ok()?.replace_all(text, replacement).to_string())
}

/// One successive match: the text between the previous match and this one, and
/// the groups of this match.
pub open spec fn piece_view(p: (String, Vec<Option<String>>)) -> (Seq<char>, Seq<Option<Seq<char>>>) {
    (p.0@, groups_view(p.1@))
}

/// The successive non-overlapping matches of `pattern` in `text`, each with the
/// text before it, and the text after the last match; `None` when the pattern
/// does not compile.
pub uninterp spec fn regex_pieces(pattern: Seq<char>, text: Seq<char>) -> Option<
    (Seq<(Seq<char>, Seq<Option<Seq<char>>>)>, Seq<char>),
>;

/// Calls `Regex::new(pattern)` and walks `Regex::captures_iter(text)`.
#[verifier::external_body]
pub(crate) fn regex_match_pieces(pattern: &str, text: &str) -> (r: Option<
    (Vec<(String, Vec<Option<String>>)>, String),
>)
    ensures
        r matches Some(p) ==> regex_pieces(pattern@, text@) == Some(
            (p.0@.map_values(|x: (String, Vec<Option<String>>)| piece_view(x)), p.1@),
        ),
        r is None ==> regex_pieces(pattern@, text@) is None,
{
    let re = regex::Regex::new(pattern).ok()?;
    let (mut pieces, mut last) = (Vec::new(), 0);
    for caps in re.captures_iter(text) {
        let whole = caps.get(0).expect("group 0 always takes part");
        let groups = caps.iter().map(|g| g.map(|m| m.as_str().to_string())).collect();
        pieces.push((text[last..whole.start()].to_string(), groups));
        last = whole.end();
    }
    Some((pieces, text[last..].to_string()))
}


/// The group of a capture, when it took part.
pub open spec fn group_text(g: Seq<Option<Seq<char>>>, k: int) -> Option<Seq<char>> {
    if 0 <= k < g.len() {
        g[k]
    } else {
        None
    }
}

/// Group `k` of a capture, as characters.
pub(crate) fn group_exec(g: &Vec<Option<String>>, k: usize) -> (r: Option<Vec<char>>)
    ensures
        opt_chars(r) == group_text(groups_view(g@), k as int),
{
    if k < g.len() {
        match &g[k] {
            Some(m) => Some(chars_of(m.as_str())),
            None => None,
        }
    } else {
        None
    }
}

} // verus!
