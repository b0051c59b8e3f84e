//! Reading JSON documents, which are carried as text.
//!
//! A document is held as its compact serialization by `serde_json`, whose
//! objects keep their keys in sorted order: two equal documents have equal
//! text. What these functions return depends on their arguments alone; the
//! names below stand for it.

use vstd::prelude::*;

verus! {

/// How deep brackets may nest in a settings text. Deeper documents are not
/// parsed: the parser recurses once per level. It is the depth that
/// `serde_json` reads by default.
pub const MAX_NESTING: usize = 128;

/// The tokens that the JSON-with-comments scanner finds in `text`, in order,
/// each as a character: `{`, `}`, `[` or `]` for a bracket, a space for any
/// other token (comments included); none where the scanner stops on an error.
pub uninterp spec fn jsonc_token_kinds(text: Seq<char>) -> Option<Seq<char>>;

/// How many brackets are open after the tokens `kinds`: an opening bracket
/// adds one, a closing bracket takes one away where one is open.
pub open spec fn open_depth(kinds: Seq<char>) -> int
    decreases kinds.len(),
{
    if kinds.len() == 0 {
        0
    } else {
        let d = open_depth(kinds.drop_last());
        let c = kinds.last();
        if c == '{' || c == '[' {
            d + 1
        } else if (c == '}' || c == ']') && d > 0 {
            d - 1
        } else {
            d
        }
    }
}

/// The most brackets open at once along the tokens `kinds`. The parser is
/// never nested deeper than this: a closing bracket that does not close its
/// own level is an error, after which it reads no more.
pub open spec fn max_nesting(kinds: Seq<char>) -> int
    decreases kinds.len(),
{
    if kinds.len() == 0 {
        0
    } else {
        let m = max_nesting(kinds.drop_last());
        let d = open_depth(kinds);
        if d > m {
            d
        } else {
            m
        }
    }
}

/// The compact text of the document that JSON-with-comments `text` holds;
/// none where it does not parse or holds no value.
pub uninterp spec fn jsonc_document(text: Seq<char>) -> Option<Seq<char>>;

/// The text of the member `key` of the object `doc`; none where `doc` is no
/// object or has no such member.
pub uninterp spec fn json_member(doc: Seq<char>, key: Seq<char>) -> Option<Seq<char>>;

/// The texts of the elements of the array `doc`; none where `doc` is no array.
pub uninterp spec fn json_elements(doc: Seq<char>) -> Option<Seq<Seq<char>>>;

/// The characters of the string `doc`; none where `doc` is no string.
pub uninterp spec fn json_string(doc: Seq<char>) -> Option<Seq<char>>;

/// `doc` is an object.
pub uninterp spec fn json_is_object(doc: Seq<char>) -> bool;

/// Relies on `jsonc_parser::Scanner::scan`, which reads one token at a time
/// without recursion, each token named by its kind.
#[verifier::external_body]
pub(crate) fn token_kinds(text: &str) -> (r: Option<Vec<char>>)
    ensures
        r.deep_view() == jsonc_token_kinds(text@),
{
    let mut scanner = jsonc_parser::Scanner::new(text);
    let mut kinds = Vec::new();
    loop {
        match scanner.scan() {
            Ok(Some(jsonc_parser::tokens::Token::OpenBrace)) => kinds.push('{'),
            Ok(Some(jsonc_parser::tokens::Token::CloseBrace)) => kinds.push('}'),
            Ok(Some(jsonc_parser::tokens::Token::OpenBracket)) => kinds.push('['),
            Ok(Some(jsonc_parser::tokens::Token::CloseBracket)) => kinds.push(']'),
            Ok(Some(_)) => kinds.push(' '),
            Ok(None) => return Some(kinds),
            Err(_) => return None,
        }
    }
}

/// Brackets nest at most `MAX_NESTING` deep along the tokens `kinds`.
pub fn nesting_within(kinds: &Vec<char>) -> (r: bool)
    ensures
        r == (max_nesting(kinds@) <= MAX_NESTING),
{
    let mut depth: usize = 0;
    let mut most: usize = 0;
    let mut i: usize = 0;
    while i < kinds.len()
        invariant
            i <= kinds.len(),
            depth <= i,
            most <= i,
            depth == open_depth(kinds@.take(i as int)),
            most == max_nesting(kinds@.take(i as int)),
        decreases kinds.len() - i,
    {
        proof {
            assert(kinds@.take(i + 1).drop_last() =~= kinds@.take(i as int));
        }
        let c = kinds[i];
        if c == '{' || c == '[' {
            depth = depth + 1;
        } else if (c == '}' || c == ']') && depth > 0 {
            depth = depth - 1;
        }
        if depth > most {
            most = depth;
        }
        i = i + 1;
    }
    assert(kinds@.take(kinds.len() as int) =~= kinds@);
    most <= MAX_NESTING
}

/// Relies on `jsonc_parser::parse_to_serde_value` with its default options
/// (comments, trailing commas and loose property names allowed), and on the
/// `Display` of `serde_json::Value` for the compact text. Parsing, converting
/// and writing all recurse once per level of nesting, so the text must scan
/// and nest at most `MAX_NESTING` deep.
#[verifier::external_body]
pub(crate) fn parse_jsonc(text: &str) -> (r: Option<String>)
    requires
        jsonc_token_kinds(text@) matches Some(kinds) && max_nesting(kinds) <= MAX_NESTING,
    ensures
        r.deep_view() == jsonc_document(text@),
{
    match jsonc_parser::parse_to_serde_value(text, &Default::default()) {
        Ok(Some(value)) => Some(value.to_string()),
        _ => None,
    }
}

/// Relies on `serde_json::from_str` into a `serde_json::Map` and on
/// `serde_json::Map::get`, the member written back as compact text.
#[verifier::external_body]
pub(crate) fn member(doc: &str, key: &str) -> (r: Option<String>)
    ensures
        r.deep_view() == json_member(doc@, key@),
{
    match serde_json::from_str::<serde_json::Map<String, serde_json::Value>>(doc) {
        Ok(object) => object.get(key).map(|value| value.to_string()),
        Err(_) => None,
    }
}

/// Relies on `serde_json::from_str` into a `Vec<serde_json::Value>`, each
/// element written back as compact text.
#[verifier::external_body]
pub(crate) fn elements(doc: &str) -> (r: Option<Vec<String>>)
    ensures
        r.deep_view() == json_elements(doc@),
{
    match serde_json::from_str::<Vec<serde_json::Value>>(doc) {
        Ok(items) => Some(items.iter().map(|value| value.to_string()).collect()),
        Err(_) => None,
    }
}

/// Relies on `serde_json::from_str` into a `String`.
#[verifier::external_body]
pub(crate) fn string_value(doc: &str) -> (r: Option<String>)
    ensures
        r.deep_view() == json_string(doc@),
{
    serde_json::from_str::<String>(doc).ok()
}

/// Relies on `serde_json::from_str` into a `serde_json::Map`, which succeeds
/// on objects alone.
#[verifier::external_body]
pub(crate) fn is_object(doc: &str) -> (r: bool)
    ensures
        r == json_is_object(doc@),
{
    serde_json::from_str::<serde_json::Map<String, serde_json::Value>>(doc).is_ok()
}

} // verus!
