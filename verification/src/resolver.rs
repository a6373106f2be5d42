//! The language model: definition records, heuristic rules, and the
//! multi-signal resolver that combines filename, extension, shebang and
//! content evidence.

use vstd::prelude::*;

use crate::container::{
    find_by_name, heuristics_by_extension_spec, langs_by_extension_spec, langs_matching,
    ContainerV, InMemoryLanguageContainer, MatchField,
};
use crate::error::LinguistError;
use crate::matcher::{regex_compiles, regex_matches, CompiledPattern};
use crate::shebang::{shebang_interpreter, shebang_interpreter_spec};
use crate::text::{join_with, join_with_str, lower, lower_str, str_eq_lower};
use crate::utils::{is_binary, is_binary_spec};

verus! {

/// The category of a language.
#[derive(Debug, Clone, Copy, PartialEq, Eq, Structural)]
pub enum Scope {
    Programming,
    Markup,
    Data,
    Prose,
    Unknown,
}

impl Scope {
    /// Parses a category name, case-insensitively; anything unrecognized is
    /// `Unknown`.
    pub fn from_name(value: &str) -> (r: Scope)
        ensures
            r == Self::scope_of(value@),
    {
        let l = lower_str(value);
        proof {
            reveal_strlit("programming");
            reveal_strlit("markup");
            reveal_strlit("data");
            reveal_strlit("prose");
        }
        if crate::text::str_eq(l.as_str(), "programming") {
            Scope::Programming
        } else if crate::text::str_eq(l.as_str(), "markup") {
            Scope::Markup
        } else if crate::text::str_eq(l.as_str(), "data") {
            Scope::Data
        } else if crate::text::str_eq(l.as_str(), "prose") {
            Scope::Prose
        } else {
            Scope::Unknown
        }
    }

    /// What `from_name` returns for a given character sequence.
    pub open spec fn scope_of(s: Seq<char>) -> Scope {
        if lower(s) == "programming"@ {
            Scope::Programming
        } else if lower(s) == "markup"@ {
            Scope::Markup
        } else if lower(s) == "data"@ {
            Scope::Data
        } else if lower(s) == "prose"@ {
            Scope::Prose
        } else {
            Scope::Unknown
        }
    }

    /// The display name of the category.
    pub fn as_str(&self) -> (r: &'static str)
        ensures
            r@ == Self::scope_name(*self),
    {
        proof {
            reveal_strlit("Programming");
            reveal_strlit("Markup");
            reveal_strlit("Data");
            reveal_strlit("Prose");
            reveal_strlit("Unknown");
        }
        match self {
            Scope::Programming => "Programming",
            Scope::Markup => "Markup",
            Scope::Data => "Data",
            Scope::Prose => "Prose",
            Scope::Unknown => "Unknown",
        }
    }

    /// What `as_str` returns for each category.
    pub open spec fn scope_name(s: Scope) -> Seq<char> {
        match s {
            Scope::Programming => "Programming"@,
            Scope::Markup => "Markup"@,
            Scope::Data => "Data"@,
            Scope::Prose => "Prose"@,
            Scope::Unknown => "Unknown"@,
        }
    }
}

/// The mathematical shadow of a [`Language`]: every text field as a
/// character sequence.
#[verifier::ext_equal]
pub ghost struct LanguageV {
    pub parent: Option<Seq<char>>,
    pub name: Seq<char>,
    pub aliases: Seq<Seq<char>>,
    pub scope: Scope,
    pub extensions: Seq<Seq<char>>,
    pub filenames: Seq<Seq<char>>,
    pub interpreters: Seq<Seq<char>>,
    pub color: Option<Seq<char>>,
}

/// A language definition record.
#[derive(Debug, Clone, PartialEq, Eq)]
pub struct Language {
    pub parent: Option<String>,
    pub name: String,
    pub aliases: Vec<String>,
    pub scope: Scope,
    pub extensions: Vec<String>,
    pub filenames: Vec<String>,
    pub interpreters: Vec<String>,
    pub color: Option<String>,
}

impl View for Language {
    type V = LanguageV;

    open spec fn view(&self) -> LanguageV {
        LanguageV {
            parent: self.parent.deep_view(),
            name: self.name@,
            aliases: self.aliases.deep_view(),
            scope: self.scope,
            extensions: self.extensions.deep_view(),
            filenames: self.filenames.deep_view(),
            interpreters: self.interpreters.deep_view(),
            color: self.color.deep_view(),
        }
    }
}

impl DeepView for Language {
    type V = LanguageV;

    open spec fn deep_view(&self) -> LanguageV {
        self.view()
    }
}

/// Copies a vector of strings, preserving its contents exactly.
pub fn copy_strings(v: &Vec<String>) -> (r: Vec<String>)
    ensures
        r.deep_view() == v.deep_view(),
{
    let r = v.clone();
    proof {
        assert forall|i: int| 0 <= i < v.len() implies r.deep_view()[i] == v.deep_view()[i] by {
            assert(cloned::<String>(v[i], r[i]));
        }
        assert(r.deep_view() =~= v.deep_view());
    }
    r
}

/// Copies an optional string, preserving its contents exactly.
pub fn copy_opt_string(v: &Option<String>) -> (r: Option<String>)
    ensures
        r.deep_view() == v.deep_view(),
{
    match v {
        Some(s) => Some(s.clone()),
        None => None,
    }
}

impl Language {
    /// Copies the record, preserving its view exactly.
    pub fn duplicate(&self) -> (r: Language)
        ensures
            r@ == self@,
    {
        let r = Language {
            parent: copy_opt_string(&self.parent),
            name: self.name.clone(),
            aliases: copy_strings(&self.aliases),
            scope: self.scope,
            extensions: copy_strings(&self.extensions),
            filenames: copy_strings(&self.filenames),
            interpreters: copy_strings(&self.interpreters),
            color: copy_opt_string(&self.color),
        };
        r
    }
}

/// The mathematical shadow of a [`HeuristicRule`].
#[verifier::ext_equal]
pub ghost struct HeuristicRuleV {
    pub language: Seq<char>,
    pub extensions: Seq<Seq<char>>,
    pub patterns: Seq<Seq<char>>,
}

/// An extension-gated content rule: when the alternation of `patterns`
/// matches a file's contents, the file is evidence for `language`.
#[derive(Debug, Clone, PartialEq, Eq)]
pub struct HeuristicRule {
    /// The name of the language that this rule selects.
    pub language: String,
    /// The normalized extensions that gate this rule.
    pub extensions: Vec<String>,
    /// The regex sources whose alternation is the rule's matcher.
    pub patterns: Vec<String>,
}

impl View for HeuristicRule {
    type V = HeuristicRuleV;

    open spec fn view(&self) -> HeuristicRuleV {
        HeuristicRuleV {
            language: self.language@,
            extensions: self.extensions.deep_view(),
            patterns: self.patterns.deep_view(),
        }
    }
}

impl DeepView for HeuristicRule {
    type V = HeuristicRuleV;

    open spec fn deep_view(&self) -> HeuristicRuleV {
        self.view()
    }
}

impl HeuristicRule {
    /// Copies the rule, preserving its view exactly.
    pub fn duplicate(&self) -> (r: HeuristicRule)
        ensures
            r@ == self@,
    {
        HeuristicRule {
            language: self.language.clone(),
            extensions: copy_strings(&self.extensions),
            patterns: copy_strings(&self.patterns),
        }
    }

    /// Whether two rules carry exactly the same text.
    pub fn same_rule(&self, other: &HeuristicRule) -> (r: bool)
        ensures
            r == (self@ == other@),
    {
        let lang_eq = crate::text::str_eq(self.language.as_str(), other.language.as_str());
        let ext_eq = string_vecs_equal(&self.extensions, &other.extensions);
        let pat_eq = string_vecs_equal(&self.patterns, &other.patterns);
        lang_eq && ext_eq && pat_eq
    }
}

/// What the resolver may read of a file: the raw bytes for the binary
/// probe, and their text decoding for shebang and content evidence,
/// where one exists.
pub struct FileContent {
    pub bytes: Vec<u8>,
    pub text: Option<String>,
}

/// All languages registered under the path's final segment as an exact
/// filename.
pub fn resolve_languages_by_filename(file: &str, container: &InMemoryLanguageContainer) -> (r:
    Result<Vec<Language>, LinguistError>)
    ensures
        match r {
            Ok(v) => v.deep_view() == langs_matching(
                container@.languages,
                MatchField::Filenames,
                crate::text::base_name(file@),
            ) && v.len() > 0,
            Err(e) => e == LinguistError::LanguageNotFound && langs_matching(
                container@.languages,
                MatchField::Filenames,
                crate::text::base_name(file@),
            ).len() == 0,
        },
{
    match container.get_languages_by_filename(file) {
        Some(v) => Ok(v),
        None => Err(LinguistError::LanguageNotFound),
    }
}

/// All languages registered under the path's lookup extension.
pub fn resolve_languages_by_extension(file: &str, container: &InMemoryLanguageContainer) -> (r:
    Result<Vec<Language>, LinguistError>)
    ensures
        match r {
            Ok(v) => v.deep_view() == langs_by_extension_spec(container@.languages, file@)
                && v.len() > 0,
            Err(e) => e == LinguistError::LanguageNotFound && langs_by_extension_spec(
                container@.languages,
                file@,
            ).len() == 0,
        },
{
    match container.get_languages_by_extension(file) {
        Some(v) => Ok(v),
        None => Err(LinguistError::LanguageNotFound),
    }
}

/// Scanning the gated rules in order: the first whose compiled
/// alternation matches the contents decides; a pattern the engine
/// rejects is skipped. `None` when no rule fires.
pub open spec fn content_scan(
    c: ContainerV,
    rules: Seq<HeuristicRuleV>,
    content: Seq<char>,
) -> Option<Option<LanguageV>>
    decreases rules.len(),
{
    if rules.len() == 0 {
        None
    } else {
        let p = join_with(rules.first().patterns, "|"@);
        if regex_compiles(p) && regex_matches(p, content) {
            Some(find_by_name(c.languages, lower(rules.first().language)))
        } else {
            content_scan(c, rules.drop_first(), content)
        }
    }
}

/// What content-heuristic evidence yields for a path and its contents.
pub open spec fn content_resolution(
    c: ContainerV,
    path: Seq<char>,
    content: Seq<char>,
) -> Option<Option<LanguageV>> {
    match heuristics_by_extension_spec(c, path) {
        None => None,
        Some(rules) => content_scan(c, rules, content),
    }
}

/// Resolves a language from the file's contents through the heuristic
/// rules gated on its extension.
pub fn resolve_language_by_content(
    file: &str,
    content: &str,
    container: &InMemoryLanguageContainer,
) -> (r: Result<Option<Language>, LinguistError>)
    ensures
        match r {
            Ok(found) => content_resolution(container@, file@, content@) == Some(
                found.deep_view(),
            ),
            Err(e) => e == LinguistError::LanguageNotFound && content_resolution(
                container@,
                file@,
                content@,
            ) is None,
        },
{
    match container.get_heuristics_by_extension(file) {
        Some(rules) => {
            let ghost rd = rules.deep_view();
            let mut i: usize = 0;
            proof {
                assert(rd.skip(0) =~= rd);
            }
            while i < rules.len()
                invariant
                    rd == rules.deep_view(),
                    rd.len() == rules.len(),
                    i <= rules.len(),
                    heuristics_by_extension_spec(container@, file@) == Some(rd),
                    content_scan(container@, rd, content@) == content_scan(
                        container@,
                        rd.skip(i as int),
                        content@,
                    ),
                decreases rules.len() - i,
            {
                let pattern = join_with_str(&rules[i].patterns, "|");
                proof {
                    assert(rd.skip(i as int).first() == rd[i as int]);
                }
                let ghost pv = pattern@;
                let fired = match CompiledPattern::compile(pattern) {
                    Ok(m) => m.is_match(content),
                    Err(_) => false,
                };
                proof {
                    assert(fired == (regex_compiles(pv) && regex_matches(pv, content@)));
                }
                if fired {
                    let found = container.get_language_by_name(rules[i].language.as_str());
                    let out: Option<Language> = match found {
                        Some(l) => Some(l.duplicate()),
                        None => None,
                    };
                    proof {
                        let p = join_with(rd[i as int].patterns, "|"@);
                        assert(regex_compiles(p) && regex_matches(p, content@));
                        assert(content_scan(container@, rd.skip(i as int), content@) == Some(
                            find_by_name(container@.languages, lower(rd[i as int].language)),
                        ));
                        assert(out.deep_view() == found.deep_view());
                    }
                    return Ok(out);
                }
                proof {
                    assert(rd.skip(i as int).drop_first() =~= rd.skip(i + 1));
                }
                i = i + 1;
            }
            proof {
                assert(rd.skip(rules.len() as int).len() == 0);
            }
            Err(LinguistError::LanguageNotFound)
        },
        None => Err(LinguistError::LanguageNotFound),
    }
}

/// What shebang evidence yields for a file's contents: the languages
/// registered under the parsed interpreter, or nothing.
pub open spec fn shebang_resolution(c: ContainerV, content: Seq<char>) -> Option<Seq<LanguageV>> {
    match shebang_interpreter_spec(content) {
        None => None,
        Some(interp) => {
            let ls = langs_matching(c.languages, MatchField::Interpreters, interp);
            if ls.len() == 0 {
                None
            } else {
                Some(ls)
            }
        },
    }
}

/// Resolves candidate languages from the file's shebang line.
pub fn resolve_languages_by_shebang(content: &str, container: &InMemoryLanguageContainer) -> (r:
    Result<Option<Vec<Language>>, LinguistError>)
    ensures
        r matches Ok(o) && o.deep_view() == shebang_resolution(container@, content@),
{
    match shebang_interpreter(content) {
        None => Ok(None),
        Some(interp) => {
            match container.get_languages_by_interpreter(interp.as_str()) {
                Some(v) => Ok(Some(v)),
                None => Ok(None),
            }
        },
    }
}

/// Whether some language of the source list carries this lowered name.
pub open spec fn in_source(src: Seq<LanguageV>, lname: Seq<char>) -> bool {
    exists|i: int| 0 <= i < src.len() && lower(#[trigger] src[i].name) == lname
}

/// How many evidence sources list the lowered name.
pub open spec fn count_sources(sources: Seq<Seq<LanguageV>>, lname: Seq<char>) -> nat
    decreases sources.len(),
{
    if sources.len() == 0 {
        0
    } else {
        (count_sources(sources.drop_last(), lname) + (if in_source(sources.last(), lname) {
            1 as int
        } else {
            0
        })) as nat
    }
}

/// The vote total of a candidate name: each source that lists it counts
/// one, and any positive evidence starts from one, so `k` sources yield
/// `k + 1` votes. A name no source lists has no vote.
pub open spec fn vote_count(sources: Seq<Seq<LanguageV>>, lname: Seq<char>) -> nat {
    if count_sources(sources, lname) == 0 {
        0
    } else {
        count_sources(sources, lname) + 1
    }
}

/// The greatest vote total among the first `upto` registered languages.
pub open spec fn max_vote(langs: Seq<LanguageV>, sources: Seq<Seq<LanguageV>>, upto: int) -> nat
    decreases upto,
{
    if upto <= 0 {
        0
    } else {
        let prev = max_vote(langs, sources, upto - 1);
        let v = vote_count(sources, lower(langs[upto - 1].name));
        if v > prev {
            v
        } else {
            prev
        }
    }
}

/// The earliest-registered language whose vote total is `m`.
pub open spec fn first_max(langs: Seq<LanguageV>, sources: Seq<Seq<LanguageV>>, m: nat) -> Option<
    LanguageV,
>
    decreases langs.len(),
{
    if langs.len() == 0 {
        None
    } else if vote_count(sources, lower(langs.first().name)) == m {
        Some(langs.first())
    } else {
        first_max(langs.drop_first(), sources, m)
    }
}

proof fn lemma_first_max_at(langs: Seq<LanguageV>, sources: Seq<Seq<LanguageV>>, m: nat, i: int)
    requires
        0 <= i < langs.len(),
        vote_count(sources, lower(langs[i].name)) == m,
        forall|j: int| 0 <= j < i ==> vote_count(sources, lower(langs[j].name)) != m,
    ensures
        first_max(langs, sources, m) == Some(langs[i]),
    decreases i,
{
    if i == 0 {
    } else {
        let t = langs.drop_first();
        assert(t[i - 1] == langs[i]);
        assert forall|j: int| 0 <= j < i - 1 implies vote_count(sources, lower(t[j].name))
            != m by {
            assert(t[j] == langs[j + 1]);
        }
        lemma_first_max_at(t, sources, m, i - 1);
    }
}

proof fn lemma_first_max_absent(langs: Seq<LanguageV>, sources: Seq<Seq<LanguageV>>, m: nat)
    requires
        forall|j: int| 0 <= j < langs.len() ==> vote_count(sources, lower(langs[j].name)) != m,
    ensures
        first_max(langs, sources, m) is None,
    decreases langs.len(),
{
    if langs.len() == 0 {
    } else {
        let t = langs.drop_first();
        assert forall|j: int| 0 <= j < t.len() implies vote_count(sources, lower(t[j].name))
            != m by {
            assert(t[j] == langs[j + 1]);
        }
        lemma_first_max_absent(t, sources, m);
    }
}

/// Tied votes fall to registration order: when the language at position
/// `i` carries the greatest positive vote total and no earlier-registered
/// language ties it, the resolver elects exactly that language — so among
/// tied candidates the earliest registration wins.
pub proof fn lemma_tie_breaks_by_registration(
    c: ContainerV,
    file: Seq<char>,
    text: Option<Seq<char>>,
    i: int,
)
    requires
        0 <= i < c.languages.len(),
        vote_count(resolver_sources(c, file, text), lower(c.languages[i].name)) == max_vote(
            c.languages,
            resolver_sources(c, file, text),
            c.languages.len() as int,
        ),
        vote_count(resolver_sources(c, file, text), lower(c.languages[i].name)) > 0,
        forall|j: int|
            0 <= j < i ==> vote_count(
                resolver_sources(c, file, text),
                lower(c.languages[j].name),
            ) != max_vote(c.languages, resolver_sources(c, file, text), c.languages.len() as int),
    ensures
        resolution(c, file, text) == Some(c.languages[i]),
{
    let sources = resolver_sources(c, file, text);
    let m = max_vote(c.languages, sources, c.languages.len() as int);
    lemma_first_max_at(c.languages, sources, m, i);
}

/// The text the resolver may search, where the caller could decode one.
pub open spec fn content_text_view(content: Option<&FileContent>) -> Option<Seq<char>> {
    match content {
        Some(fc) => fc.text.deep_view(),
        None => None,
    }
}

/// Whether the handed-over bytes make the file binary.
pub open spec fn content_is_binary(content: Option<&FileContent>) -> bool {
    match content {
        Some(fc) => is_binary_spec(fc.bytes@),
        None => false,
    }
}

/// The four evidence sources, in the order the resolver consults them:
/// filename, shebang, extension, content heuristics.
pub open spec fn resolver_sources(
    c: ContainerV,
    file: Seq<char>,
    text: Option<Seq<char>>,
) -> Seq<Seq<LanguageV>> {
    let s1 = langs_matching(c.languages, MatchField::Filenames, crate::text::base_name(file));
    let s2 = match text {
        Some(t) => match shebang_resolution(c, t) {
            Some(ls) => ls,
            None => Seq::empty(),
        },
        None => Seq::empty(),
    };
    let s3 = langs_by_extension_spec(c.languages, file);
    let s4 = match text {
        Some(t) => match content_resolution(c, file, t) {
            Some(found) => match found {
                Some(l) => seq![l],
                None => Seq::empty(),
            },
            None => Seq::empty(),
        },
        None => Seq::empty(),
    };
    seq![s1, s2, s3, s4]
}

/// The language the combined evidence elects: the earliest-registered
/// language with the greatest positive vote total, or nothing when no
/// source voted.
pub open spec fn resolution(c: ContainerV, file: Seq<char>, text: Option<Seq<char>>) -> Option<
    LanguageV,
> {
    let sources = resolver_sources(c, file, text);
    let m = max_vote(c.languages, sources, c.languages.len() as int);
    if m == 0 {
        None
    } else {
        first_max(c.languages, sources, m)
    }
}

/// Whether any language in the source carries the same name as `name`,
/// case-insensitively.
fn source_contains(src: &Vec<Language>, name: &str) -> (r: bool)
    ensures
        r == in_source(src.deep_view(), lower(name@)),
{
    let mut i: usize = 0;
    while i < src.len()
        invariant
            i <= src.len(),
            forall|j: int| 0 <= j < i ==> lower(src.deep_view()[j].name) != lower(name@),
        decreases src.len() - i,
    {
        if str_eq_lower(src[i].name.as_str(), name) {
            proof {
                assert(lower(src.deep_view()[i as int].name) == lower(name@));
            }
            return true;
        }
        i = i + 1;
    }
    false
}

/// The vote total of `name` over the given sources.
fn vote_count_exec(sources: &Vec<Vec<Language>>, name: &str) -> (r: usize)
    requires
        sources@.len() < usize::MAX,
    ensures
        r == vote_count(sources.deep_view(), lower(name@)),
{
    let ghost sd = sources.deep_view();
    let mut k: usize = 0;
    proof {
        assert(sd.take(0).len() == 0);
    }
    let mut i: usize = 0;
    while i < sources.len()
        invariant
            sd == sources.deep_view(),
            sd.len() == sources.len(),
            i <= sources.len(),
            k <= i,
            k == count_sources(sd.take(i as int), lower(name@)),
        decreases sources.len() - i,
    {
        let hit = source_contains(&sources[i], name);
        proof {
            assert(sd.take(i + 1).drop_last() =~= sd.take(i as int));
            assert(sd.take(i + 1).last() == sd[i as int]);
        }
        if hit {
            k = k + 1;
        }
        i = i + 1;
    }
    proof {
        assert(sd.take(sources.len() as int) =~= sd);
    }
    if k == 0 {
        0
    } else {
        k + 1
    }
}

/// Resolves the language of a file from every available signal:
/// filename, shebang, extension and content heuristics, tied broken by
/// registration order. A binary file resolves to nothing; when no signal
/// votes, the lookup fails with `LanguageNotFound`.
pub fn resolve_language(
    file: &str,
    content: Option<&FileContent>,
    container: &InMemoryLanguageContainer,
) -> (r: Result<Option<Language>, LinguistError>)
    ensures
        match r {
            Ok(found) => match found {
                Some(l) => !content_is_binary(content) && resolution(
                    container@,
                    file@,
                    content_text_view(content),
                ) == Some(l@),
                None => content_is_binary(content),
            },
            Err(e) => e == LinguistError::LanguageNotFound && !content_is_binary(content)
                && resolution(container@, file@, content_text_view(content)) is None,
        },
{
    let ghost text = content_text_view(content);
    match content {
        Some(fc) => {
            if is_binary(fc.bytes.as_slice()) {
                return Ok(None);
            }
        },
        None => {},
    }
    let v1 = match container.get_languages_by_filename(file) {
        Some(v) => v,
        None => Vec::new(),
    };
    let v2: Vec<Language> = match content {
        Some(fc) => match &fc.text {
            Some(t) => match resolve_languages_by_shebang(t.as_str(), container) {
                Ok(Some(v)) => v,
                _ => Vec::new(),
            },
            None => Vec::new(),
        },
        None => Vec::new(),
    };
    let v3 = match container.get_languages_by_extension(file) {
        Some(v) => v,
        None => Vec::new(),
    };
    let v4: Vec<Language> = match content {
        Some(fc) => match &fc.text {
            Some(t) => match resolve_language_by_content(file, t.as_str(), container) {
                Ok(Some(l)) => vec![l],
                _ => Vec::new(),
            },
            None => Vec::new(),
        },
        None => Vec::new(),
    };
    let ghost srcs = resolver_sources(container@, file@, text);
    let mut sources: Vec<Vec<Language>> = Vec::new();
    sources.push(v1);
    sources.push(v2);
    sources.push(v3);
    sources.push(v4);
    proof {
        assert(sources.deep_view().len() == 4);
        assert(sources.deep_view()[0] =~= srcs[0]);
        assert(sources.deep_view()[1] =~= srcs[1]);
        assert(sources.deep_view()[2] =~= srcs[2]);
        assert(sources.deep_view()[3] =~~= srcs[3]);
        assert(sources.deep_view() =~~= srcs);
    }
    let ghost ld = container@.languages;
    let n = container.language_count();
    let mut m: usize = 0;
    let mut i: usize = 0;
    while i < n
        invariant
            srcs == sources.deep_view(),
            sources@.len() == 4,
            ld == container@.languages,
            n == ld.len(),
            i <= n,
            m == max_vote(ld, srcs, i as int),
        decreases n - i,
    {
        let v = vote_count_exec(&sources, container.language_at(i).name.as_str());
        if v > m {
            m = v;
        }
        i = i + 1;
    }
    if m == 0 {
        return Err(LinguistError::LanguageNotFound);
    }
    let mut i: usize = 0;
    while i < n
        invariant
            srcs == sources.deep_view(),
            sources@.len() == 4,
            ld == container@.languages,
            n == ld.len(),
            i <= n,
            m == max_vote(ld, srcs, n as int),
            m > 0,
            text == content_text_view(content),
            srcs == resolver_sources(container@, file@, text),
            !content_is_binary(content),
            forall|j: int| 0 <= j < i ==> vote_count(srcs, lower(ld[j].name)) != m,
        decreases n - i,
    {
        let v = vote_count_exec(&sources, container.language_at(i).name.as_str());
        if v == m {
            proof {
                assert(vote_count(srcs, lower(ld[i as int].name)) == m as nat);
                lemma_first_max_at(ld, srcs, m as nat, i as int);
                assert(first_max(ld, srcs, m as nat) == Some(ld[i as int]));
                assert(resolver_sources(container@, file@, text) == srcs);
                assert(max_vote(container@.languages, srcs, container@.languages.len() as int)
                    == m as nat);
                assert(resolution(container@, file@, text) == Some(ld[i as int]));
            }
            return Ok(Some(container.language_at(i).duplicate()));
        }
        i = i + 1;
    }
    proof {
        lemma_first_max_absent(ld, srcs, m as nat);
    }
    Err(LinguistError::LanguageNotFound)
}

/// Whether two vectors of strings hold the same texts in the same order.
pub fn string_vecs_equal(a: &Vec<String>, b: &Vec<String>) -> (r: bool)
    ensures
        r == (a.deep_view() == b.deep_view()),
{
    if a.len() != b.len() {
        proof {
            assert(a.deep_view().len() != b.deep_view().len());
        }
        return false;
    }
    let mut i: usize = 0;
    while i < a.len()
        invariant
            a.len() == b.len(),
            i <= a.len(),
            forall|j: int| 0 <= j < i ==> a.deep_view()[j] == b.deep_view()[j],
        decreases a.len() - i,
    {
        if !crate::text::str_eq(a[i].as_str(), b[i].as_str()) {
            proof {
                assert(a.deep_view()[i as int] != b.deep_view()[i as int]);
            }
            return false;
        }
        i = i + 1;
    }
    proof {
        assert(a.deep_view() =~= b.deep_view());
    }
    true
}

} // verus!
