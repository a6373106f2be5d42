//! The boundary to the regex engine. Whether a pattern compiles and what
//! it matches are functions of the pattern and the text alone; both are
//! named here and relied upon, never restated.

use vstd::prelude::*;

verus! {

/// Whether the regex engine accepts `pattern`.
pub uninterp spec fn regex_compiles(pattern: Seq<char>) -> bool;

/// What matching `pattern` against `text` returns, for a pattern the
/// engine accepts.
pub uninterp spec fn regex_matches(pattern: Seq<char>, text: Seq<char>) -> bool;

#[verifier::external_type_specification]
#[verifier::external_body]
pub struct ExRegex(regex::Regex);

/// One compiled regex, kept beside its source so that contracts can
/// speak of it. The only constructor is [`CompiledPattern::compile`], so
/// the compiled form always belongs to the stored source.
pub struct CompiledPattern {
    pattern: String,
    re: regex::Regex,
}

impl View for CompiledPattern {
    type V = Seq<char>;

    closed spec fn view(&self) -> Seq<char> {
        self.pattern@
    }
}

impl CompiledPattern {
    /// Relies on `regex::Regex::new`: success depends on the pattern
    /// alone, and a refused pattern hands the engine's error back.
    #[verifier::external_body]
    pub fn compile(pattern: String) -> (r: Result<CompiledPattern, regex::Error>)
        ensures
            (r is Ok) == regex_compiles(pattern@),
            r matches Ok(m) ==> m@ == pattern@,
    {
        match regex::Regex::new(&pattern) {
            Ok(re) => Ok(CompiledPattern { pattern, re }),
            Err(e) => Err(e),
        }
    }

    /// Relies on `regex::Regex::is_match`: the result depends on the
    /// pattern and the text alone.
    #[verifier::external_body]
    pub fn is_match(&self, text: &str) -> (r: bool)
        ensures
            r == regex_matches(self@, text@),
    {
        self.re.is_match(text)
    }
}

/// Whether the regex engine accepts every pattern of the set.
pub uninterp spec fn regex_set_compiles(patterns: Seq<Seq<char>>) -> bool;

/// What matching the whole set against `text` returns: whether any
/// pattern of the set matches.
pub uninterp spec fn regex_set_matches(patterns: Seq<Seq<char>>, text: Seq<char>) -> bool;

#[verifier::external_type_specification]
#[verifier::external_body]
pub struct ExRegexSet(regex::RegexSet);

/// A compiled disjunction of path patterns, kept beside its sources so
/// that contracts can speak of them. The only constructor is
/// [`PathMatcher::compile`], so the compiled set always belongs to the
/// stored sources.
pub struct PathMatcher {
    patterns: Vec<String>,
    set: regex::RegexSet,
}

impl View for PathMatcher {
    type V = Seq<Seq<char>>;

    closed spec fn view(&self) -> Seq<Seq<char>> {
        self.patterns.deep_view()
    }
}

impl PathMatcher {
    /// Relies on `regex::RegexSet::new`: success depends on the patterns
    /// alone, and a refused pattern hands the engine's error back.
    #[verifier::external_body]
    pub fn compile(patterns: Vec<String>) -> (r: Result<PathMatcher, regex::Error>)
        ensures
            (r is Ok) == regex_set_compiles(patterns.deep_view()),
            r matches Ok(m) ==> m@ == patterns.deep_view(),
    {
        match regex::RegexSet::new(&patterns) {
            Ok(set) => Ok(PathMatcher { patterns, set }),
            Err(e) => Err(e),
        }
    }

    /// Relies on `regex::RegexSet::is_match`: the result depends on the
    /// patterns and the text alone.
    #[verifier::external_body]
    pub fn is_match(&self, text: &str) -> (r: bool)
        ensures
            r == regex_set_matches(self@, text@),
    {
        self.set.is_match(text)
    }
}

/// The command captured from an `exec` redirection line by the fixed
/// pattern `exec (\w+).+\$0.+\$@`, as a function of the line alone.
pub uninterp spec fn exec_line_capture(line: Seq<char>) -> Option<Seq<char>>;

/// Relies on `regex::Regex::captures` with the fixed pattern above: the
/// captured command depends on the line alone.
#[verifier::external_body]
pub fn capture_exec_line(line: &str) -> (r: Option<String>)
    ensures
        r.deep_view() == exec_line_capture(line@),
{
    let re = match regex::Regex::new("exec (\\w+).+\\$0.+\\$@") {
        Ok(re) => re,
        Err(_) => return None,
    };
    match re.captures(line) {
        Some(caps) => match caps.get(1) {
            Some(m) => Some(m.as_str().to_string()),
            None => None,
        },
        None => None,
    }
}

} // verus!
