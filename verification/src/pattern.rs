//! Regular-expression replacement through the `regex` crate.
use vstd::prelude::*;

verus! {

#[verifier::external_type_specification]
#[verifier::external_body]
pub struct ExRegex(::regex::Regex);

/// A regular expression that `regex` has compiled, with its source.
pub struct Pattern {
    re: ::regex::Regex,
    source: Vec<char>,
}

impl Pattern {
    pub closed spec fn source(&self) -> Seq<char> {
        self.source@
    }
}

/// Names whether `regex::Regex::new` accepts a pattern.
pub uninterp spec fn regex_compiles(pattern: Seq<char>) -> bool;

/// Names what `Regex::replace_all` returns for a pattern, a text and a
/// replacement (in which `$1` stands for the first group).
pub uninterp spec fn regex_replace_all(pattern: Seq<char>, text: Seq<char>, rep: Seq<char>) -> Seq<char>;

/// The pattern that matches runs of whitespace.
pub open spec fn ws_run_pattern() -> Seq<char> {
    seq!['\\', 's', '+']
}

/// Calls `regex::Regex::new`: it succeeds exactly when the pattern compiles,
/// which the `regex` syntax documentation shows for `\s+`, and the result
/// remembers its source.
#[verifier::external_body]
pub(crate) fn compile(pattern: &str) -> (r: Option<Pattern>)
    ensures
        r is Some <==> regex_compiles(pattern@),
        pattern@ == ws_run_pattern() ==> r is Some,
        r matches Some(p) ==> p.source() == pattern@,
{
    ::regex::Regex::new(pattern).ok().map(|re| Pattern { re, source: pattern.chars().collect() })
}

/// Calls `Regex::replace_all`; the result is named `regex_replace_all`.
#[verifier::external_body]
pub(crate) fn replace_all(p: &Pattern, text: &Vec<char>, rep: &str) -> (r: Vec<char>)
    ensures
        r@ == regex_replace_all(p.source(), text@, rep@),
{
    p.re.replace_all(&text.iter().collect::<String>(), rep).chars().collect()
}

/// The text with every match of `pattern` replaced, or the text itself when
/// the pattern does not compile.
pub open spec fn apply_regex(pattern: Seq<char>, text: Seq<char>, rep: Seq<char>) -> Seq<char> {
    if regex_compiles(pattern) {
        regex_replace_all(pattern, text, rep)
    } else {
        text
    }
}

/// `Regex::new(pattern).map(|re| re.replace_all(text, rep)).unwrap_or(text)`.
pub fn replace_or_keep(pattern: &str, text: &Vec<char>, rep: &str) -> (r: Vec<char>)
    ensures
        r@ == apply_regex(pattern@, text@, rep@),
{
    match compile(pattern) {
        Some(p) => replace_all(&p, text, rep),
        None => crate::text::copy_chars(text),
    }
}

/// Every run of whitespace replaced by one space (`\s+` to `" "`).
pub open spec fn collapse_ws(text: Seq<char>) -> Seq<char> {
    regex_replace_all(ws_run_pattern(), text, seq![' '])
}

/// `Regex::new(r"\s+").unwrap().replace_all(text, " ")`.
pub fn collapse_whitespace(text: &Vec<char>) -> (r: Vec<char>)
    ensures
        r@ == collapse_ws(text@),
{
    proof {
        reveal_strlit("\\s+");
        reveal_strlit(" ");
    }
    assert("\\s+"@ =~= ws_run_pattern());
    assert(" "@ =~= seq![' ']);
    match compile("\\s+") {
        Some(p) => replace_all(&p, text, " "),
        None => {
            proof {
                assert(false);
            }
            Vec::new()
        },
    }
}

} // verus!
