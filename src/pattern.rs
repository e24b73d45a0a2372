//! Compiled regular expressions that remember the text they were compiled from,
//! so that contracts can speak of what a match does on that text.
use vstd::prelude::*;

verus! {

#[verifier::external_type_specification]
#[verifier::external_body]
pub struct ExRegex(regex::Regex);

#[verifier::external_type_specification]
#[verifier::external_body]
pub struct ExRegexError(regex::Error);

/// `regex::Regex::new` accepts the pattern text `p`.
pub uninterp spec fn regex_valid(p: Seq<char>) -> bool;

/// `regex::Regex::is_match` of pattern `p` on `text`.
pub uninterp spec fn regex_matches(p: Seq<char>, text: Seq<char>) -> bool;

/// `regex::Regex::replace_all` of pattern `p` on `text` with the replacement
/// text `rep`, in which `$name` and `${name}` stand for capture groups.
pub uninterp spec fn regex_replaced(p: Seq<char>, text: Seq<char>, rep: Seq<char>) -> Seq<char>;

/// `regex::Regex::captures` of pattern `p` on `text`: `None` where nothing
/// matches, else one slot per group of the pattern, group 0 first.
pub uninterp spec fn regex_captures(p: Seq<char>, text: Seq<char>) -> Option<Seq<Option<Seq<char>>>>;

/// A pattern text that was refused.
#[derive(Debug)]
pub struct PatternError {
    pub pattern: String,
}

/// A regular expression together with the text it was compiled from.
/// The fields are private: `regex` is always `Regex::new(source)`.
#[derive(Debug)]
pub struct Pattern {
    source: String,
    regex: regex::Regex,
}

impl View for Pattern {
    type V = Seq<char>;

    open spec fn view(&self) -> Seq<char> {
        self.source_view()
    }
}

/// Relies on `regex::Regex::new`: it succeeds exactly on valid pattern texts.
#[verifier::external_body]
fn compile_regex(p: &str) -> (r: Result<regex::Regex, regex::Error>)
    ensures
        r.is_ok() == regex_valid(p@),
{
    regex::Regex::new(p)
}

/// Relies on `regex::Regex::is_match` of the pattern compiled from `p.source`.
#[verifier::external_body]
fn regex_is_match(p: &Pattern, text: &str) -> (r: bool)
    ensures
        r == regex_matches(p@, text@),
{
    p.regex.is_match(text)
}

/// Relies on `regex::Regex::replace_all` of the pattern compiled from `p.source`.
#[verifier::external_body]
fn regex_replace_all(p: &Pattern, text: &str, rep: &str) -> (r: String)
    ensures
        r@ == regex_replaced(p@, text@, rep@),
{
    p.regex.replace_all(text, rep).into_owned()
}

/// Relies on `regex::Regex::captures` of the pattern compiled from `p.source`;
/// each group is turned into an owned string.
#[verifier::external_body]
fn regex_captures_of(p: &Pattern, text: &str) -> (r: Option<Vec<Option<String>>>)
    ensures
        match (r, regex_captures(p@, text@)) {
            (None, None) => true,
            (Some(v), Some(s)) => v@.len() == s.len() && forall|i: int|
                0 <= i < s.len() ==> #[trigger] opt_view(v@[i]) == s[i],
            _ => false,
        },
{
    let caps = p.regex.captures(text)?;
    Some(caps.iter().map(|m| m.map(|m| m.as_str().to_string())).collect())
}

/// The view of an optional string.
pub open spec fn opt_view(o: Option<String>) -> Option<Seq<char>> {
    match o {
        Some(s) => Some(s@),
        None => None,
    }
}

impl Pattern {
    pub closed spec fn source_view(&self) -> Seq<char> {
        self.source@
    }

    /// Compiles `src`; refused exactly when the pattern text is not valid.
    pub fn new(src: &str) -> (r: Result<Pattern, PatternError>)
        ensures
            r.is_ok() == regex_valid(src@),
            r matches Ok(p) ==> p@ == src@,
            r matches Err(e) ==> e.pattern@ == src@,
    {
        match compile_regex(src) {
            Ok(regex) => Ok(Pattern { source: src.to_owned(), regex }),
            Err(_) => Err(PatternError { pattern: src.to_owned() }),
        }
    }

    /// The pattern text.
    pub fn as_str(&self) -> (r: &str)
        ensures
            r@ == self@,
    {
        self.source.as_str()
    }

    /// Whether the pattern matches somewhere in `text`.
    pub fn is_match(&self, text: &str) -> (r: bool)
        ensures
            r == regex_matches(self@, text@),
    {
        regex_is_match(self, text)
    }

    /// `text` with every match replaced by `rep`.
    pub fn replace_all(&self, text: &str, rep: &str) -> (r: String)
        ensures
            r@ == regex_replaced(self@, text@, rep@),
    {
        regex_replace_all(self, text, rep)
    }

    /// The groups of the first match in `text`, if any.
    pub fn captures(&self, text: &str) -> (r: Option<Vec<Option<String>>>)
        ensures
            match (r, regex_captures(self@, text@)) {
                (None, None) => true,
                (Some(v), Some(s)) => v@.len() == s.len() && forall|i: int|
                    0 <= i < s.len() ==> #[trigger] opt_view(v@[i]) == s[i],
                _ => false,
            },
    {
        regex_captures_of(self, text)
    }
}

} // verus!
