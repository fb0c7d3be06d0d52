//! `find`: which nodes match a name pattern and a node type.
use vstd::prelude::*;
use crate::output::FindResult;
use crate::text::{chars_of, chars_eq, rfind_char, slice_chars, string_of, last_index_of, join_strings, join_with};

verus! {

#[verifier::external_type_specification]
#[verifier::external_body]
pub struct ExRegex(regex::Regex);

/// What `Regex::new(pattern)` reports: nothing when it accepts the
/// pattern, otherwise the text of its error (`Error`'s `Display`).
pub uninterp spec fn regex_new_error(pattern: Seq<char>) -> Option<Seq<char>>;

/// Whether `Regex::new` accepts `pattern`.
pub open spec fn pattern_compiles(pattern: Seq<char>) -> bool {
    regex_new_error(pattern) is None
}

/// Whether the regex compiled from `pattern` matches somewhere in `text`
/// (`Regex::is_match`).
pub uninterp spec fn pattern_matches(pattern: Seq<char>, text: Seq<char>) -> bool;

/// `Regex::new(pattern)` from `regex`, with the error turned into its
/// text. Trusted: it succeeds exactly when `regex_new_error` gives nothing
/// for the pattern, and otherwise fails with that text.
#[verifier::external_body]
fn compile_regex(pattern: &str) -> (r: Result<regex::Regex, String>)
    ensures
        r is Ok <==> regex_new_error(pattern@) is None,
        r matches Err(e) ==> regex_new_error(pattern@) == Some(e@),
{
    regex::Regex::new(pattern).map_err(|e| e.to_string())
}

/// A compiled name pattern.
pub struct NameMatcher {
    pattern: String,
    re: regex::Regex,
}

impl NameMatcher {
    /// The pattern it was compiled from.
    pub closed spec fn pattern(&self) -> Seq<char> {
        self.pattern@
    }

    /// Compiles `pattern`; the error is the compiler's message.
    pub fn new(pattern: &str) -> (r: Result<NameMatcher, String>)
        ensures
            r is Ok <==> pattern_compiles(pattern@),
            r matches Ok(m) ==> m.pattern() == pattern@,
            r matches Err(e) ==> regex_new_error(pattern@) == Some(e@),
    {
        match compile_regex(pattern) {
            Ok(re) => Ok(NameMatcher { pattern: pattern.to_owned(), re }),
            Err(e) => Err(e),
        }
    }
}

/// `m.re.is_match(text)` from `regex`. Trusted: the answer is whether the
/// matcher's pattern matches somewhere in `text` (its regex was compiled
/// from that pattern by `NameMatcher::new`).
#[verifier::external_body]
fn regex_is_match(m: &NameMatcher, text: &str) -> (r: bool)
    ensures
        r == pattern_matches(m.pattern(), text@),
{
    m.re.is_match(text)
}

/// The last name of a path: what follows its last `/` (all of it when there
/// is none).
pub open spec fn spec_node_name(path: Seq<char>) -> Seq<char> {
    let j = last_index_of(path, '/');
    if j >= 0 {
        path.subrange(j + 1, path.len() as int)
    } else {
        path
    }
}

/// The last name of a path (`path.rsplit('/').next()`).
pub fn node_name(path: &str) -> (r: String)
    ensures
        r@ == spec_node_name(path@),
{
    let v = chars_of(path);
    let n = v.len();
    match rfind_char(&v, '/') {
        Some(j) => {
            assert(j < n);
            string_of(&slice_chars(&v, j + 1, n))
        },
        None => path.to_owned(),
    }
}

/// Whether the node type filter admits a node with the given owner: no
/// filter admits all, `ephemeral` admits nodes with an owner, `persistent`
/// those without, and any other word admits none.
pub open spec fn spec_type_admits(filter: Option<Seq<char>>, ephemeral_owner: i64) -> bool {
    match filter {
        None => true,
        Some(f) => (f == "ephemeral"@ && ephemeral_owner != 0) || (f == "persistent"@
            && ephemeral_owner == 0),
    }
}

/// The type filters: `persistent` admits exactly the nodes without an
/// ephemeral owner, `ephemeral` exactly those with one, so no node passes
/// both; no filter admits every node.
pub proof fn law_type_filters(ephemeral_owner: i64)
    ensures
        spec_type_admits(Some("persistent"@), ephemeral_owner) <==> ephemeral_owner == 0,
        spec_type_admits(Some("ephemeral"@), ephemeral_owner) <==> ephemeral_owner != 0,
        !(spec_type_admits(Some("persistent"@), ephemeral_owner) && spec_type_admits(
            Some("ephemeral"@),
            ephemeral_owner,
        )),
        spec_type_admits(None, ephemeral_owner),
{
    reveal_strlit("persistent");
    reveal_strlit("ephemeral");
    assert("persistent"@ != "ephemeral"@) by {
        assert("persistent"@.len() != "ephemeral"@.len());
    }
}

/// Whether `find` reports the node at `path`: its name matches the pattern
/// and its type passes the filter.
pub fn is_reported(m: &NameMatcher, path: &str, ephemeral_owner: i64, type_filter: Option<&str>) -> (r: bool)
    ensures
        r == (pattern_matches(m.pattern(), spec_node_name(path@)) && spec_type_admits(
            match type_filter {
                Some(f) => Some(f@),
                None => None,
            },
            ephemeral_owner,
        )),
{
    let name = node_name(path);
    if !regex_is_match(m, name.as_str()) {
        return false;
    }
    match type_filter {
        None => true,
        Some(f) => {
            let fv = chars_of(f);
            let is_eph = chars_eq(&fv, &chars_of("ephemeral"));
            let is_pers = chars_eq(&fv, &chars_of("persistent"));
            (is_eph && ephemeral_owner != 0) || (is_pers && ephemeral_owner == 0)
        },
    }
}

/// Prints the matches, one per line.
pub fn format_human(r: &FindResult) -> (out: String)
    ensures
        out@ == join_with(r.matches.deep_view(), seq!['\n']),
{
    proof {
        reveal_strlit("\n");
        assert("\n"@ =~= seq!['\n']);
    }
    join_strings(&r.matches, "\n")
}

} // verus!
