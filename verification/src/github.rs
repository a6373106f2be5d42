//! Loaders for the linguist corpus files: languages, heuristics, vendor
//! and documentation patterns, each from the text of its YAML document.

use vstd::prelude::*;

use crate::container::{norm_ext, wf_ext};
use crate::error::LinguistError;
use crate::resolver::{
    copy_opt_string, copy_strings, HeuristicRule, HeuristicRuleV, Language, LanguageV, Scope,
};
use crate::utils::{is_unsupported_regex_spec, is_unsupported_regex_syntax};
use crate::yaml::{
    lemma_nodes_deep_view, lemma_pairs_deep_view, parse_yaml_doc, yaml_doc_of, YamlNode, YamlNodeV,
};

verus! {

/// The mathematical shadow of a [`GhLanguageDef`].
#[verifier::ext_equal]
pub ghost struct GhLanguageDefV {
    pub color: Option<Seq<char>>,
    pub name: Seq<char>,
    pub scope: Seq<char>,
    pub aliases: Option<Seq<Seq<char>>>,
    pub extensions: Option<Seq<Seq<char>>>,
    pub filenames: Option<Seq<Seq<char>>>,
    pub interpreters: Option<Seq<Seq<char>>>,
    pub group: Option<Seq<char>>,
}

/// One language entry of a linguist `languages.yml` document, before
/// normalization.
#[derive(Debug, Clone, PartialEq, Eq)]
pub struct GhLanguageDef {
    pub color: Option<String>,
    pub name: String,
    pub scope: String,
    pub aliases: Option<Vec<String>>,
    pub extensions: Option<Vec<String>>,
    pub filenames: Option<Vec<String>>,
    pub interpreters: Option<Vec<String>>,
    pub group: Option<String>,
}

impl View for GhLanguageDef {
    type V = GhLanguageDefV;

    open spec fn view(&self) -> GhLanguageDefV {
        GhLanguageDefV {
            color: self.color.deep_view(),
            name: self.name@,
            scope: self.scope@,
            aliases: self.aliases.deep_view(),
            extensions: self.extensions.deep_view(),
            filenames: self.filenames.deep_view(),
            interpreters: self.interpreters.deep_view(),
            group: self.group.deep_view(),
        }
    }
}

/// An absent list of strings reads as the empty list.
pub open spec fn opt_strings(o: Option<Seq<Seq<char>>>) -> Seq<Seq<char>> {
    match o {
        Some(s) => s,
        None => Seq::empty(),
    }
}

/// Every extension normalized.
pub open spec fn norm_all(es: Seq<Seq<char>>) -> Seq<Seq<char>> {
    Seq::new(es.len(), |i: int| norm_ext(es[i]))
}

/// The language a raw definition denotes: the grouping language becomes
/// the parent, the scope is parsed case-insensitively, and every
/// extension is normalized.
pub open spec fn language_of_def(d: GhLanguageDefV) -> LanguageV {
    LanguageV {
        parent: d.group,
        name: d.name,
        aliases: opt_strings(d.aliases),
        scope: Scope::scope_of(d.scope),
        extensions: norm_all(opt_strings(d.extensions)),
        filenames: opt_strings(d.filenames),
        interpreters: opt_strings(d.interpreters),
        color: d.color,
    }
}

/// A loaded extension is stored well-formed — lower-cased, with no
/// leading dot — for every source extension that does not begin with two
/// dots.
pub proof fn lemma_loaded_extension_wf(d: GhLanguageDefV, i: int)
    requires
        0 <= i < opt_strings(d.extensions).len(),
        (opt_strings(d.extensions)[i].len() >= 2 ==> !(opt_strings(d.extensions)[i][0] == '.'
            && opt_strings(d.extensions)[i][1] == '.')),
    ensures
        wf_ext(language_of_def(d).extensions[i]),
{
    crate::container::lemma_norm_ext_wf(opt_strings(d.extensions)[i]);
}

/// Every extension of a loaded language is stored lower-cased, whatever
/// the source held: the other half of the stored-extension invariant,
/// with no condition at all.
pub proof fn lemma_loaded_extension_lowercase(d: GhLanguageDefV, i: int)
    requires
        0 <= i < language_of_def(d).extensions.len(),
    ensures
        forall|k: int|
            0 <= k < language_of_def(d).extensions[i].len() ==> !crate::text::is_upper(
                #[trigger] language_of_def(d).extensions[i][k],
            ),
{
    crate::container::lemma_norm_ext_lowercase(opt_strings(d.extensions)[i]);
}

/// Normalizes every extension in the list.
pub fn normalize_extensions(v: &Vec<String>) -> (r: Vec<String>)
    ensures
        r.deep_view() == norm_all(v.deep_view()),
{
    let mut r: Vec<String> = Vec::new();
    let mut i: usize = 0;
    while i < v.len()
        invariant
            i <= v.len(),
            r.deep_view().len() == i,
            forall|j: int| 0 <= j < i ==> r.deep_view()[j] == norm_ext(v.deep_view()[j]),
        decreases v.len() - i,
    {
        let ghost prev = r.deep_view();
        let ne = crate::container::normalize_ext(v[i].as_str());
        r.push(ne);
        proof {
            assert(r.deep_view() =~~= prev.push(ne@));
        }
        i = i + 1;
    }
    proof {
        assert(r.deep_view() =~~= norm_all(v.deep_view()));
    }
    r
}

impl GhLanguageDef {
    /// Normalizes the raw definition into a [`Language`] record.
    pub fn to_language(&self) -> (r: Language)
        ensures
            r@ == language_of_def(self@),
    {
        let r = Language {
            parent: copy_opt_string(&self.group),
            name: self.name.clone(),
            aliases: match &self.aliases {
                Some(v) => copy_strings(v),
                None => Vec::new(),
            },
            scope: Scope::from_name(self.scope.as_str()),
            extensions: match &self.extensions {
                Some(v) => normalize_extensions(v),
                None => Vec::new(),
            },
            filenames: match &self.filenames {
                Some(v) => copy_strings(v),
                None => Vec::new(),
            },
            interpreters: match &self.interpreters {
                Some(v) => copy_strings(v),
                None => Vec::new(),
            },
            color: copy_opt_string(&self.color),
        };
        proof {
            assert(norm_all(Seq::<Seq<char>>::empty()) =~~= Seq::<Seq<char>>::empty());
            assert(r@ =~~= language_of_def(self@));
        }
        r
    }
}

/// The first value stored under a string key, in document order.
pub open spec fn map_get(es: Seq<(YamlNodeV, YamlNodeV)>, key: Seq<char>) -> Option<YamlNodeV>
    decreases es.len(),
{
    if es.len() == 0 {
        None
    } else if es.first().0 == YamlNodeV::Str(key) {
        Some(es.first().1)
    } else {
        map_get(es.drop_first(), key)
    }
}

proof fn lemma_map_get_at(es: Seq<(YamlNodeV, YamlNodeV)>, key: Seq<char>, i: int)
    requires
        0 <= i < es.len(),
        es[i].0 == YamlNodeV::Str(key),
        forall|j: int| 0 <= j < i ==> (#[trigger] es[j]).0 != YamlNodeV::Str(key),
    ensures
        map_get(es, key) == Some(es[i].1),
    decreases i,
{
    if i == 0 {
    } else {
        let t = es.drop_first();
        assert(t[i - 1] == es[i]);
        assert forall|j: int| 0 <= j < i - 1 implies (#[trigger] t[j]).0 != YamlNodeV::Str(key) by {
            assert(t[j] == es[j + 1]);
        }
        lemma_map_get_at(t, key, i - 1);
    }
}

proof fn lemma_map_get_absent(es: Seq<(YamlNodeV, YamlNodeV)>, key: Seq<char>)
    requires
        forall|j: int| 0 <= j < es.len() ==> (#[trigger] es[j]).0 != YamlNodeV::Str(key),
    ensures
        map_get(es, key) is None,
    decreases es.len(),
{
    if es.len() > 0 {
        let t = es.drop_first();
        assert forall|j: int| 0 <= j < t.len() implies (#[trigger] t[j]).0 != YamlNodeV::Str(key) by {
            assert(t[j] == es[j + 1]);
        }
        lemma_map_get_absent(t, key);
    }
}

/// A list prepended to an optional rest, failure passed through.
pub open spec fn opt_prepend<T>(p: Seq<T>, o: Option<Seq<T>>) -> Option<Seq<T>> {
    match o {
        Some(r) => Some(p + r),
        None => None,
    }
}

/// The strings a list of nodes holds, when every item is a string.
pub open spec fn str_items_of(items: Seq<YamlNodeV>) -> Option<Seq<Seq<char>>>
    decreases items.len(),
{
    if items.len() == 0 {
        Some(Seq::empty())
    } else {
        match items.first() {
            YamlNodeV::Str(s) => match str_items_of(items.drop_first()) {
                Some(rest) => Some(seq![s] + rest),
                None => None,
            },
            _ => None,
        }
    }
}

/// The strings a node holds, when it is a list of strings.
pub open spec fn str_list_of(n: YamlNodeV) -> Option<Seq<Seq<char>>> {
    match n {
        YamlNodeV::List(items) => str_items_of(items),
        _ => None,
    }
}

/// An optional string field: absent is fine, a non-string value is a
/// shape error.
pub open spec fn opt_str_field(es: Seq<(YamlNodeV, YamlNodeV)>, key: Seq<char>) -> Option<
    Option<Seq<char>>,
> {
    match map_get(es, key) {
        None => Some(None),
        Some(n) => match n {
            YamlNodeV::Str(s) => Some(Some(s)),
            _ => None,
        },
    }
}

/// An optional list-of-strings field.
pub open spec fn opt_str_list_field(es: Seq<(YamlNodeV, YamlNodeV)>, key: Seq<char>) -> Option<
    Option<Seq<Seq<char>>>,
> {
    match map_get(es, key) {
        None => Some(None),
        Some(n) => match str_list_of(n) {
            Some(l) => Some(Some(l)),
            None => None,
        },
    }
}

/// The raw definition one mapping entry denotes: the entry's key is the
/// name, a string `type` is required, and each optional field must keep
/// its shape.
pub open spec fn def_of_entry(name: Seq<char>, v: YamlNodeV) -> Option<GhLanguageDefV> {
    match v {
        YamlNodeV::Mapping(fs) => match map_get(fs, "type"@) {
            Some(YamlNodeV::Str(sc)) => match opt_str_field(fs, "color"@) {
                Some(color) => match opt_str_field(fs, "group"@) {
                    Some(group) => match opt_str_list_field(fs, "aliases"@) {
                        Some(aliases) => match opt_str_list_field(fs, "extensions"@) {
                            Some(extensions) => match opt_str_list_field(fs, "filenames"@) {
                                Some(filenames) => match opt_str_list_field(fs, "interpreters"@) {
                                    Some(interpreters) => Some(
                                        GhLanguageDefV {
                                            color,
                                            name,
                                            scope: sc,
                                            aliases,
                                            extensions,
                                            filenames,
                                            interpreters,
                                            group,
                                        },
                                    ),
                                    None => None,
                                },
                                None => None,
                            },
                            None => None,
                        },
                        None => None,
                    },
                    None => None,
                },
                None => None,
            },
            _ => None,
        },
        _ => None,
    }
}

/// The raw definitions of a languages mapping, one per entry, in
/// document order; a non-string key or a malformed entry fails the
/// whole document.
pub open spec fn defs_of_entries(es: Seq<(YamlNodeV, YamlNodeV)>) -> Option<Seq<GhLanguageDefV>>
    decreases es.len(),
{
    if es.len() == 0 {
        Some(Seq::empty())
    } else {
        match es.first().0 {
            YamlNodeV::Str(name) => match def_of_entry(name, es.first().1) {
                Some(d) => match defs_of_entries(es.drop_first()) {
                    Some(rest) => Some(seq![d] + rest),
                    None => None,
                },
                None => None,
            },
            _ => None,
        }
    }
}

/// The raw definitions a languages document denotes, when it parses and
/// is a mapping of the right shape.
pub open spec fn languages_doc_of(s: Seq<char>) -> Option<Seq<GhLanguageDefV>> {
    match yaml_doc_of(s) {
        Some(YamlNodeV::Mapping(es)) => defs_of_entries(es),
        _ => None,
    }
}

/// Finds the first value stored under a string key.
fn get_field<'a>(entries: &'a Vec<(YamlNode, YamlNode)>, key: &str) -> (r: Option<&'a YamlNode>)
    ensures
        r.deep_view() == map_get(entries.deep_view(), key@),
{
    let ghost ed = entries.deep_view();
    let mut i: usize = 0;
    while i < entries.len()
        invariant
            ed == entries.deep_view(),
            ed.len() == entries.len(),
            i <= entries.len(),
            forall|j: int| 0 <= j < i ==> (#[trigger] ed[j]).0 != YamlNodeV::Str(key@),
        decreases entries.len() - i,
    {
        let hit = match &entries[i].0 {
            YamlNode::Str(s) => crate::text::str_eq(s.as_str(), key),
            _ => false,
        };
        if hit {
            proof {
                assert(ed[i as int].0 == YamlNodeV::Str(key@));
                lemma_map_get_at(ed, key@, i as int);
            }
            return Some(&entries[i].1);
        }
        proof {
            assert(ed[i as int].0 != YamlNodeV::Str(key@));
        }
        i = i + 1;
    }
    proof {
        lemma_map_get_absent(ed, key@);
    }
    None
}

/// Reads a node that must be a list of strings.
fn as_str_list(n: &YamlNode) -> (r: Result<Vec<String>, LinguistError>)
    ensures
        r matches Ok(v) ==> str_list_of(n@) == Some(v.deep_view()),
        (r is Err) == (str_list_of(n@) is None),
        r matches Err(e) ==> e == LinguistError::DeserializationError,
{
    match n {
        YamlNode::List(items) => {
            proof {
                lemma_nodes_deep_view(items);
            }
            let ghost itd = items.deep_view();
            let mut out: Vec<String> = Vec::new();
            proof {
                assert(itd.skip(0) =~= itd);
                if str_items_of(itd) is Some {
                    assert(out.deep_view() + str_items_of(itd).unwrap() =~= str_items_of(
                        itd,
                    ).unwrap());
                }
            }
            let mut i: usize = 0;
            while i < items.len()
                invariant
                    itd == items.deep_view(),
                    itd.len() == items.len(),
                    i <= items.len(),
                    out.deep_view().len() == i,
                    str_list_of(n@) == str_items_of(itd),
                    opt_prepend(out.deep_view(), str_items_of(itd.skip(i as int))) == str_items_of(
                        itd,
                    ),
                decreases items.len() - i,
            {
                let ghost prev = out.deep_view();
                proof {
                    assert(itd.skip(i as int).first() == itd[i as int]);
                    assert(itd.skip(i as int).drop_first() =~= itd.skip(i + 1));
                }
                match &items[i] {
                    YamlNode::Str(s) => {
                        out.push(s.clone());
                        proof {
                            assert(out.deep_view() =~~= prev.push(s@));
                            if str_items_of(itd.skip(i + 1)) is Some {
                                let rest = str_items_of(itd.skip(i + 1)).unwrap();
                                assert(prev.push(s@) + rest =~= prev + (seq![s@] + rest));
                            }
                        }
                    },
                    _ => {
                        proof {
                            assert(str_items_of(itd.skip(i as int)) is None);
                        }
                        return Err(LinguistError::DeserializationError);
                    },
                }
                i = i + 1;
            }
            proof {
                assert(itd.skip(items.len() as int).len() == 0);
                assert(out.deep_view() + Seq::<Seq<char>>::empty() =~= out.deep_view());
            }
            Ok(out)
        },
        _ => Err(LinguistError::DeserializationError),
    }
}

/// Reads one optional string field of a mapping.
fn get_opt_str_field(entries: &Vec<(YamlNode, YamlNode)>, key: &str) -> (r: Result<
    Option<String>,
    LinguistError,
>)
    ensures
        r matches Ok(o) ==> opt_str_field(entries.deep_view(), key@) == Some(o.deep_view()),
        (r is Err) == (opt_str_field(entries.deep_view(), key@) is None),
        r matches Err(e) ==> e == LinguistError::DeserializationError,
{
    match get_field(entries, key) {
        None => Ok(None),
        Some(node) => match node {
            YamlNode::Str(s) => Ok(Some(s.clone())),
            _ => Err(LinguistError::DeserializationError),
        },
    }
}

/// Reads one optional list-of-strings field of a mapping.
fn get_opt_str_list_field(entries: &Vec<(YamlNode, YamlNode)>, key: &str) -> (r: Result<
    Option<Vec<String>>,
    LinguistError,
>)
    ensures
        r matches Ok(o) ==> opt_str_list_field(entries.deep_view(), key@) == Some(o.deep_view()),
        (r is Err) == (opt_str_list_field(entries.deep_view(), key@) is None),
        r matches Err(e) ==> e == LinguistError::DeserializationError,
{
    match get_field(entries, key) {
        None => Ok(None),
        Some(node) => match as_str_list(node) {
            Ok(l) => Ok(Some(l)),
            Err(e) => Err(e),
        },
    }
}

/// Reads one language entry; the mapping key becomes the name, and a
/// missing or malformed `type` field fails the load.
fn parse_language_entry(name: String, v: &YamlNode) -> (r: Result<GhLanguageDef, LinguistError>)
    ensures
        r matches Ok(d) ==> def_of_entry(name@, v@) == Some(d@),
        (r is Err) == (def_of_entry(name@, v@) is None),
        r matches Err(e) ==> e == LinguistError::DeserializationError,
{
    match v {
        YamlNode::Mapping(entries) => {
            proof {
                lemma_pairs_deep_view(entries);
            }
            let scope: String = match get_field(entries, "type") {
                Some(node) => match node {
                    YamlNode::Str(s) => s.clone(),
                    _ => {
                        return Err(LinguistError::DeserializationError);
                    },
                },
                None => {
                    return Err(LinguistError::DeserializationError);
                },
            };
            let color = match get_opt_str_field(entries, "color") {
                Ok(c) => c,
                Err(e) => {
                    return Err(e);
                },
            };
            let group = match get_opt_str_field(entries, "group") {
                Ok(g) => g,
                Err(e) => {
                    return Err(e);
                },
            };
            let aliases = match get_opt_str_list_field(entries, "aliases") {
                Ok(a) => a,
                Err(e) => {
                    return Err(e);
                },
            };
            let extensions = match get_opt_str_list_field(entries, "extensions") {
                Ok(a) => a,
                Err(e) => {
                    return Err(e);
                },
            };
            let filenames = match get_opt_str_list_field(entries, "filenames") {
                Ok(a) => a,
                Err(e) => {
                    return Err(e);
                },
            };
            let interpreters = match get_opt_str_list_field(entries, "interpreters") {
                Ok(a) => a,
                Err(e) => {
                    return Err(e);
                },
            };
            let d = GhLanguageDef {
                color,
                name,
                scope,
                aliases,
                extensions,
                filenames,
                interpreters,
                group,
            };
            proof {
                assert(def_of_entry(d.name@, v@) =~~= Some(d@));
            }
            Ok(d)
        },
        _ => Err(LinguistError::DeserializationError),
    }
}

/// Loads the language definitions of a `languages.yml` document: one
/// normalized [`Language`] per mapping entry, in document order. The
/// load succeeds exactly when the document denotes a mapping of
/// well-shaped entries, and every failure is a deserialization error.
pub fn load_github_linguist_languages(content: &str) -> (r: Result<Vec<Language>, LinguistError>)
    ensures
        r matches Ok(langs) ==> languages_doc_of(content@) matches Some(defs)
            && langs.deep_view() == Seq::new(defs.len(), |i: int| language_of_def(defs[i])),
        (r is Err) == (languages_doc_of(content@) is None),
        r matches Err(e) ==> e == LinguistError::DeserializationError,
{
    let doc = match parse_yaml_doc(content) {
        Some(d) => d,
        None => {
            return Err(LinguistError::DeserializationError);
        },
    };
    let entries = match &doc {
        YamlNode::Mapping(e) => e,
        _ => {
            return Err(LinguistError::DeserializationError);
        },
    };
    proof {
        lemma_pairs_deep_view(entries);
    }
    let ghost ed = entries.deep_view();
    let ghost mut done: Seq<GhLanguageDefV> = Seq::empty();
    let mut out: Vec<Language> = Vec::new();
    proof {
        assert(ed.skip(0) =~= ed);
        assert(languages_doc_of(content@) == defs_of_entries(ed));
        if defs_of_entries(ed) is Some {
            assert(done + defs_of_entries(ed).unwrap() =~= defs_of_entries(ed).unwrap());
        }
        assert(out.deep_view() =~~= Seq::new(done.len(), |i: int| language_of_def(done[i])));
    }
    let mut i: usize = 0;
    while i < entries.len()
        invariant
            ed == entries.deep_view(),
            ed.len() == entries.len(),
            i <= entries.len(),
            done.len() == i,
            languages_doc_of(content@) == defs_of_entries(ed),
            opt_prepend(done, defs_of_entries(ed.skip(i as int))) == defs_of_entries(ed),
            out.deep_view() == Seq::new(done.len(), |i: int| language_of_def(done[i])),
        decreases entries.len() - i,
    {
        let ghost prev = out.deep_view();
        proof {
            assert(ed.skip(i as int).first() == ed[i as int]);
            assert(ed.skip(i as int).drop_first() =~= ed.skip(i + 1));
        }
        let name: String = match &entries[i].0 {
            YamlNode::Str(s) => s.clone(),
            _ => {
                proof {
                    assert(defs_of_entries(ed.skip(i as int)) is None);
                }
                return Err(LinguistError::DeserializationError);
            },
        };
        let ghost nv = name@;
        let def = match parse_language_entry(name, &entries[i].1) {
            Ok(d) => d,
            Err(e) => {
                proof {
                    assert(def_of_entry(nv, ed[i as int].1) is None);
                    assert(defs_of_entries(ed.skip(i as int)) is None);
                }
                return Err(e);
            },
        };
        let ghost dv = def@;
        let lang = def.to_language();
        out.push(lang);
        proof {
            assert(def_of_entry(nv, ed[i as int].1) == Some(dv));
            if defs_of_entries(ed.skip(i + 1)) is Some {
                let rest = defs_of_entries(ed.skip(i + 1)).unwrap();
                assert(done.push(dv) + rest =~= done + (seq![dv] + rest));
            }
            done = done.push(dv);
            assert(out.deep_view() =~~= prev.push(language_of_def(dv)));
            assert(out.deep_view() =~~= Seq::new(done.len(), |i: int| language_of_def(done[i])));
        }
        i = i + 1;
    }
    proof {
        assert(ed.skip(entries.len() as int).len() == 0);
        assert(done + Seq::<GhLanguageDefV>::empty() =~= done);
        assert(defs_of_entries(ed) == Some(done));
    }
    Ok(out)
}

/// The mathematical shadow of a [`PatternValue`].
pub ghost enum PatternValueV {
    Single(Seq<char>),
    Multiple(Seq<Seq<char>>),
}

/// A pattern field that may hold one regex source or a list of them.
#[derive(Debug, Clone, PartialEq, Eq)]
pub enum PatternValue {
    Single(String),
    Multiple(Vec<String>),
}

impl View for PatternValue {
    type V = PatternValueV;

    open spec fn view(&self) -> PatternValueV {
        match self {
            PatternValue::Single(s) => PatternValueV::Single(s@),
            PatternValue::Multiple(v) => PatternValueV::Multiple(v.deep_view()),
        }
    }
}

impl DeepView for PatternValue {
    type V = PatternValueV;

    open spec fn deep_view(&self) -> PatternValueV {
        self.view()
    }
}

/// The mathematical shadow of a [`RuleLanguage`].
pub ghost enum RuleLanguageV {
    Single(Seq<char>),
    Multiple(Seq<Seq<char>>),
}

/// The language field of a heuristic rule: one name, or several for a
/// rule whose match is shared evidence.
#[derive(Debug, Clone, PartialEq, Eq)]
pub enum RuleLanguage {
    Single(String),
    Multiple(Vec<String>),
}

impl View for RuleLanguage {
    type V = RuleLanguageV;

    open spec fn view(&self) -> RuleLanguageV {
        match self {
            RuleLanguage::Single(s) => RuleLanguageV::Single(s@),
            RuleLanguage::Multiple(v) => RuleLanguageV::Multiple(v.deep_view()),
        }
    }
}

impl DeepView for RuleLanguage {
    type V = RuleLanguageV;

    open spec fn deep_view(&self) -> RuleLanguageV {
        self.view()
    }
}

/// The mathematical shadow of a [`NamedPattern`].
pub ghost struct NamedPatternV {
    pub pattern: Option<Seq<char>>,
    pub named_pattern: Option<PatternValueV>,
}

/// One conjunct of a rule's `and` list: a direct pattern, a named
/// reference, or both.
#[derive(Debug, Clone, PartialEq, Eq)]
pub struct NamedPattern {
    pub pattern: Option<String>,
    pub named_pattern: Option<PatternValue>,
}

impl View for NamedPattern {
    type V = NamedPatternV;

    open spec fn view(&self) -> NamedPatternV {
        NamedPatternV {
            pattern: self.pattern.deep_view(),
            named_pattern: self.named_pattern.deep_view(),
        }
    }
}

impl DeepView for NamedPattern {
    type V = NamedPatternV;

    open spec fn deep_view(&self) -> NamedPatternV {
        self.view()
    }
}

/// The mathematical shadow of a [`Rule`].
pub ghost struct RuleV {
    pub language: RuleLanguageV,
    pub and_rules: Option<Seq<NamedPatternV>>,
    pub pattern: Option<PatternValueV>,
}

/// One raw disambiguation rule, before named-pattern expansion.
#[derive(Debug, Clone, PartialEq, Eq)]
pub struct Rule {
    pub language: RuleLanguage,
    pub and_rules: Option<Vec<NamedPattern>>,
    pub pattern: Option<PatternValue>,
}

impl View for Rule {
    type V = RuleV;

    open spec fn view(&self) -> RuleV {
        RuleV {
            language: self.language.deep_view(),
            and_rules: self.and_rules.deep_view(),
            pattern: self.pattern.deep_view(),
        }
    }
}

impl DeepView for Rule {
    type V = RuleV;

    open spec fn deep_view(&self) -> RuleV {
        self.view()
    }
}

/// The mathematical shadow of a [`Disambiguation`].
pub ghost struct DisambiguationV {
    pub extensions: Seq<Seq<char>>,
    pub rules: Seq<RuleV>,
}

/// One raw disambiguation block: the gating extensions and their rules.
#[derive(Debug, Clone, PartialEq, Eq)]
pub struct Disambiguation {
    pub extensions: Vec<String>,
    pub rules: Vec<Rule>,
}

impl View for Disambiguation {
    type V = DisambiguationV;

    open spec fn view(&self) -> DisambiguationV {
        DisambiguationV { extensions: self.extensions.deep_view(), rules: self.rules.deep_view() }
    }
}

impl DeepView for Disambiguation {
    type V = DisambiguationV;

    open spec fn deep_view(&self) -> DisambiguationV {
        self.view()
    }
}

/// A pattern value rendered to one regex source: a list becomes the
/// alternation of its members.
pub open spec fn rendered_pattern(p: PatternValueV) -> Seq<char> {
    match p {
        PatternValueV::Single(s) => s,
        PatternValueV::Multiple(v) => crate::text::join_with(v, "|"@),
    }
}

/// A named-pattern value rendered to one regex source.
pub open spec fn rendered_language(l: RuleLanguageV) -> Seq<char> {
    match l {
        RuleLanguageV::Single(s) => s,
        RuleLanguageV::Multiple(v) => crate::text::join_with(v, "|"@),
    }
}

/// The single name a rule's language field denotes; a multi-language
/// rule keeps no name.
pub open spec fn rule_language_name(l: RuleLanguageV) -> Seq<char> {
    match l {
        RuleLanguageV::Single(s) => s,
        RuleLanguageV::Multiple(v) => Seq::empty(),
    }
}

/// The first named pattern registered under `name`, if any.
pub open spec fn lookup_named(
    nps: Seq<(Seq<char>, RuleLanguageV)>,
    name: Seq<char>,
) -> Option<RuleLanguageV>
    decreases nps.len(),
{
    if nps.len() == 0 {
        None
    } else if nps.first().0 == name {
        Some(nps.first().1)
    } else {
        lookup_named(nps.drop_first(), name)
    }
}

/// The patterns a list of named references resolves to; an unknown name
/// contributes nothing.
pub open spec fn named_refs_patterns(
    nps: Seq<(Seq<char>, RuleLanguageV)>,
    names: Seq<Seq<char>>,
) -> Seq<Seq<char>>
    decreases names.len(),
{
    if names.len() == 0 {
        Seq::empty()
    } else {
        (match lookup_named(nps, names.first()) {
            Some(v) => seq![rendered_language(v)],
            None => Seq::empty(),
        }) + named_refs_patterns(nps, names.drop_first())
    }
}

/// The patterns a named-pattern field resolves to.
pub open spec fn named_value_patterns(
    nps: Seq<(Seq<char>, RuleLanguageV)>,
    pv: PatternValueV,
) -> Seq<Seq<char>> {
    match pv {
        PatternValueV::Single(nm) => named_refs_patterns(nps, seq![nm]),
        PatternValueV::Multiple(nms) => named_refs_patterns(nps, nms),
    }
}

/// An absent direct pattern contributes nothing.
pub open spec fn opt_single(o: Option<Seq<char>>) -> Seq<Seq<char>> {
    match o {
        Some(p) => seq![p],
        None => Seq::empty(),
    }
}

/// The patterns one `and` conjunct contributes.
pub open spec fn and_item_patterns(
    nps: Seq<(Seq<char>, RuleLanguageV)>,
    it: NamedPatternV,
) -> Seq<Seq<char>> {
    opt_single(it.pattern) + (match it.named_pattern {
        Some(pv) => named_value_patterns(nps, pv),
        None => Seq::empty(),
    })
}

/// The patterns a rule's whole `and` list contributes, in order.
pub open spec fn and_items_patterns(
    nps: Seq<(Seq<char>, RuleLanguageV)>,
    items: Seq<NamedPatternV>,
) -> Seq<Seq<char>>
    decreases items.len(),
{
    if items.len() == 0 {
        Seq::empty()
    } else {
        and_item_patterns(nps, items.first()) + and_items_patterns(nps, items.drop_first())
    }
}

/// An absent `and` list reads as the empty list.
pub open spec fn opt_items(o: Option<Seq<NamedPatternV>>) -> Seq<NamedPatternV> {
    match o {
        Some(s) => s,
        None => Seq::empty(),
    }
}

/// Every pattern a rule carries: its direct pattern, then each `and`
/// conjunct's contribution.
pub open spec fn rule_patterns(nps: Seq<(Seq<char>, RuleLanguageV)>, r: RuleV) -> Seq<Seq<char>> {
    (match r.pattern {
        Some(pv) => seq![rendered_pattern(pv)],
        None => Seq::empty(),
    }) + and_items_patterns(nps, opt_items(r.and_rules))
}

/// All of a rule's patterns lie inside the supported regex dialect.
pub open spec fn rule_supported(ps: Seq<Seq<char>>) -> bool {
    forall|i: int| 0 <= i < ps.len() ==> !is_unsupported_regex_spec(#[trigger] ps[i])
}

/// The heuristic rules one block yields: one per raw rule, gated on the
/// block's normalized extensions, with rules outside the supported
/// dialect dropped.
pub open spec fn rules_of_block(
    nps: Seq<(Seq<char>, RuleLanguageV)>,
    exts: Seq<Seq<char>>,
    rules: Seq<RuleV>,
) -> Seq<HeuristicRuleV>
    decreases rules.len(),
{
    if rules.len() == 0 {
        Seq::empty()
    } else {
        let rest = rules_of_block(nps, exts, rules.drop_last());
        let hr = HeuristicRuleV {
            language: rule_language_name(rules.last().language),
            extensions: exts,
            patterns: rule_patterns(nps, rules.last()),
        };
        if rule_supported(hr.patterns) {
            rest.push(hr)
        } else {
            rest
        }
    }
}

/// The flat rule list a whole heuristics document expands to, in
/// document order.
pub open spec fn expand_heuristics(
    nps: Seq<(Seq<char>, RuleLanguageV)>,
    blocks: Seq<DisambiguationV>,
) -> Seq<HeuristicRuleV>
    decreases blocks.len(),
{
    if blocks.len() == 0 {
        Seq::empty()
    } else {
        expand_heuristics(nps, blocks.drop_last()) + rules_of_block(
            nps,
            norm_all(blocks.last().extensions),
            blocks.last().rules,
        )
    }
}

/// Renders a pattern value to one regex source.
fn rendered_pattern_exec(p: &PatternValue) -> (r: String)
    ensures
        r@ == rendered_pattern(p@),
{
    match p {
        PatternValue::Single(s) => s.clone(),
        PatternValue::Multiple(v) => crate::text::join_with_str(v, "|"),
    }
}

/// Renders a named-pattern value to one regex source.
fn rendered_language_exec(l: &RuleLanguage) -> (r: String)
    ensures
        r@ == rendered_language(l@),
{
    match l {
        RuleLanguage::Single(s) => s.clone(),
        RuleLanguage::Multiple(v) => crate::text::join_with_str(v, "|"),
    }
}

/// Resolves one named reference and renders it, if it is known.
fn lookup_render(nps: &Vec<(String, RuleLanguage)>, name: &str) -> (r: Option<String>)
    ensures
        r.deep_view() == match lookup_named(nps.deep_view(), name@) {
            Some(v) => Some(rendered_language(v)),
            None => None::<Seq<char>>,
        },
{
    let ghost nd = nps.deep_view();
    let mut i: usize = 0;
    while i < nps.len()
        invariant
            nd == nps.deep_view(),
            nd.len() == nps.len(),
            i <= nps.len(),
            forall|j: int| 0 <= j < i ==> nd[j].0 != name@,
        decreases nps.len() - i,
    {
        if crate::text::str_eq(nps[i].0.as_str(), name) {
            proof {
                crate::github::lemma_lookup_named_at(nd, name@, i as int);
            }
            return Some(rendered_language_exec(&nps[i].1));
        }
        i = i + 1;
    }
    proof {
        lemma_lookup_named_absent(nd, name@);
    }
    None
}

pub proof fn lemma_lookup_named_at(nps: Seq<(Seq<char>, RuleLanguageV)>, name: Seq<char>, i: int)
    requires
        0 <= i < nps.len(),
        nps[i].0 == name,
        forall|j: int| 0 <= j < i ==> nps[j].0 != name,
    ensures
        lookup_named(nps, name) == Some(nps[i].1),
    decreases i,
{
    if i == 0 {
    } else {
        let t = nps.drop_first();
        assert(t[i - 1].0 == name);
        assert forall|j: int| 0 <= j < i - 1 implies t[j].0 != name by {
            assert(t[j] == nps[j + 1]);
        }
        lemma_lookup_named_at(t, name, i - 1);
    }
}

pub proof fn lemma_lookup_named_absent(nps: Seq<(Seq<char>, RuleLanguageV)>, name: Seq<char>)
    requires
        forall|j: int| 0 <= j < nps.len() ==> nps[j].0 != name,
    ensures
        lookup_named(nps, name) is None,
    decreases nps.len(),
{
    if nps.len() == 0 {
    } else {
        let t = nps.drop_first();
        assert forall|j: int| 0 <= j < t.len() implies t[j].0 != name by {
            assert(t[j] == nps[j + 1]);
        }
        lemma_lookup_named_absent(t, name);
    }
}

/// Appends the patterns a list of named references resolves to.
fn push_named_refs(
    out: &mut Vec<String>,
    nps: &Vec<(String, RuleLanguage)>,
    names: &Vec<String>,
)
    ensures
        final(out).deep_view() == old(out).deep_view() + named_refs_patterns(
            nps.deep_view(),
            names.deep_view(),
        ),
{
    let ghost nd = nps.deep_view();
    let ghost base = out.deep_view();
    let ghost md = names.deep_view();
    proof {
        assert(md.skip(0) =~= md);
        assert(base + Seq::<Seq<char>>::empty() =~= base);
    }
    let mut i: usize = 0;
    while i < names.len()
        invariant
            nd == nps.deep_view(),
            md == names.deep_view(),
            md.len() == names.len(),
            i <= names.len(),
            out.deep_view() + named_refs_patterns(nd, md.skip(i as int)) == base
                + named_refs_patterns(nd, md),
        decreases names.len() - i,
    {
        let ghost prev = out.deep_view();
        proof {
            assert(md.skip(i as int).first() == md[i as int]);
            assert(md.skip(i as int).drop_first() =~= md.skip(i + 1));
        }
        match lookup_render(nps, names[i].as_str()) {
            Some(p) => {
                out.push(p);
                proof {
                    assert(out.deep_view() =~~= prev.push(out@.last()@));
                    assert(out.deep_view() + named_refs_patterns(nd, md.skip(i + 1)) =~= prev
                        + named_refs_patterns(nd, md.skip(i as int)));
                }
            },
            None => {
                proof {
                    assert(out.deep_view() + named_refs_patterns(nd, md.skip(i + 1)) =~= prev
                        + named_refs_patterns(nd, md.skip(i as int)));
                }
            },
        }
        i = i + 1;
    }
    proof {
        assert(md.skip(names.len() as int).len() == 0);
        assert(out.deep_view() + Seq::<Seq<char>>::empty() =~= out.deep_view());
    }
}

/// Builds every pattern one raw rule carries.
fn build_rule_patterns(nps: &Vec<(String, RuleLanguage)>, rule: &Rule) -> (r: Vec<String>)
    ensures
        r.deep_view() == rule_patterns(nps.deep_view(), rule@),
{
    let ghost nd = nps.deep_view();
    let mut out: Vec<String> = Vec::new();
    match &rule.pattern {
        Some(pv) => {
            let rp = rendered_pattern_exec(pv);
            out.push(rp);
        },
        None => {},
    }
    let ghost head = out.deep_view();
    proof {
        assert(head =~~= match rule@.pattern {
            Some(pv) => seq![rendered_pattern(pv)],
            None => Seq::<Seq<char>>::empty(),
        });
    }
    match &rule.and_rules {
        Some(items) => {
            let ghost itd = items.deep_view();
            proof {
                assert(itd.skip(0) =~= itd);
            }
            let mut i: usize = 0;
            while i < items.len()
                invariant
                    nd == nps.deep_view(),
                    itd == items.deep_view(),
                    itd.len() == items.len(),
                    i <= items.len(),
                    out.deep_view() + and_items_patterns(nd, itd.skip(i as int)) == head
                        + and_items_patterns(nd, itd),
                decreases items.len() - i,
            {
                let ghost prev = out.deep_view();
                proof {
                    assert(itd.skip(i as int).first() == itd[i as int]);
                    assert(itd.skip(i as int).drop_first() =~= itd.skip(i + 1));
                }
                let ghost mid0 = out.deep_view();
                match &items[i].pattern {
                    Some(p) => {
                        out.push(p.clone());
                        proof {
                            assert(cloned::<String>(
                                items[i as int].pattern.get_Some_0(),
                                out@.last(),
                            ));
                            assert(out.deep_view() =~~= mid0 + opt_single(itd[i as int].pattern));
                        }
                    },
                    None => {
                        proof {
                            assert(out.deep_view() =~~= mid0 + opt_single(itd[i as int].pattern));
                        }
                    },
                }
                let ghost mid1 = out.deep_view();
                match &items[i].named_pattern {
                    Some(pv) => match pv {
                        PatternValue::Single(nm) => {
                            proof {
                                assert(itd[i as int].named_pattern == Some(
                                    PatternValueV::Single(nm@),
                                ));
                                assert(seq![nm@].first() == nm@);
                                assert(seq![nm@].drop_first() =~= Seq::<Seq<char>>::empty());
                                assert(named_refs_patterns(nd, Seq::<Seq<char>>::empty())
                                    =~= Seq::<Seq<char>>::empty());
                                assert(named_refs_patterns(nd, seq![nm@]) =~~= (match lookup_named(
                                    nd,
                                    nm@,
                                ) {
                                    Some(v) => seq![rendered_language(v)],
                                    None => Seq::<Seq<char>>::empty(),
                                }));
                            }
                            match lookup_render(nps, nm.as_str()) {
                                Some(p) => {
                                    out.push(p);
                                    proof {
                                        assert(out.deep_view() =~~= mid1 + named_value_patterns(
                                            nd,
                                            itd[i as int].named_pattern.get_Some_0(),
                                        ));
                                    }
                                },
                                None => {
                                    proof {
                                        assert(out.deep_view() =~~= mid1 + named_value_patterns(
                                            nd,
                                            itd[i as int].named_pattern.get_Some_0(),
                                        ));
                                    }
                                },
                            }
                        },
                        PatternValue::Multiple(nms) => {
                            push_named_refs(&mut out, nps, nms);
                            proof {
                                assert(out.deep_view() =~~= mid1 + named_value_patterns(
                                    nd,
                                    itd[i as int].named_pattern.get_Some_0(),
                                ));
                            }
                        },
                    },
                    None => {},
                }
                proof {
                    assert(out.deep_view() =~~= prev + and_item_patterns(nd, itd[i as int]));
                    assert(out.deep_view() + and_items_patterns(nd, itd.skip(i + 1)) =~= prev
                        + and_items_patterns(nd, itd.skip(i as int)));
                }
                i = i + 1;
            }
            proof {
                assert(itd.skip(items.len() as int).len() == 0);
                assert(out.deep_view() + Seq::<Seq<char>>::empty() =~= out.deep_view());
                assert(opt_items(rule@.and_rules) == itd);
                assert(out.deep_view() =~= rule_patterns(nd, rule@));
            }
        },
        None => {
            proof {
                assert(and_items_patterns(nd, opt_items(rule@.and_rules))
                    =~= Seq::<Seq<char>>::empty());
                assert(out.deep_view() =~= rule_patterns(nd, rule@));
            }
        },
    }
    out
}

/// Whether every pattern in the list lies inside the supported dialect.
fn patterns_supported(ps: &Vec<String>) -> (r: bool)
    ensures
        r == rule_supported(ps.deep_view()),
{
    let mut i: usize = 0;
    while i < ps.len()
        invariant
            i <= ps.len(),
            forall|j: int| 0 <= j < i ==> !is_unsupported_regex_spec(#[trigger] ps.deep_view()[j]),
        decreases ps.len() - i,
    {
        if is_unsupported_regex_syntax(ps[i].as_str()) {
            proof {
                assert(is_unsupported_regex_spec(ps.deep_view()[i as int]));
            }
            return false;
        }
        i = i + 1;
    }
    true
}

/// Expands a parsed heuristics document into its flat rule list.
pub fn expand_heuristics_exec(nps: &Vec<(String, RuleLanguage)>, blocks: &Vec<Disambiguation>) -> (r:
    Vec<HeuristicRule>)
    ensures
        r.deep_view() == expand_heuristics(nps.deep_view(), blocks.deep_view()),
{
    let ghost nd = nps.deep_view();
    let ghost bd = blocks.deep_view();
    let mut out: Vec<HeuristicRule> = Vec::new();
    proof {
        assert(out.deep_view() =~~= expand_heuristics(nd, bd.take(0)));
    }
    let mut b: usize = 0;
    while b < blocks.len()
        invariant
            nd == nps.deep_view(),
            bd == blocks.deep_view(),
            bd.len() == blocks.len(),
            b <= blocks.len(),
            out.deep_view() == expand_heuristics(nd, bd.take(b as int)),
        decreases blocks.len() - b,
    {
        let exts = normalize_extensions(&blocks[b].extensions);
        let ghost ed = exts.deep_view();
        let rules = &blocks[b].rules;
        let ghost rd = rules.deep_view();
        proof {
            assert(ed == norm_all(bd[b as int].extensions));
        }
        let mut k: usize = 0;
        while k < rules.len()
            invariant
                nd == nps.deep_view(),
                bd == blocks.deep_view(),
                bd.len() == blocks.len(),
                b < blocks.len(),
                rd == rules.deep_view(),
                rd == bd[b as int].rules,
                rd.len() == rules.len(),
                ed == exts.deep_view(),
                ed == norm_all(bd[b as int].extensions),
                k <= rules.len(),
                out.deep_view() == expand_heuristics(nd, bd.take(b as int)) + rules_of_block(
                    nd,
                    ed,
                    rd.take(k as int),
                ),
            decreases rules.len() - k,
        {
            let ghost prev = out.deep_view();
            let patterns = build_rule_patterns(nps, &rules[k]);
            let language: String = match &rules[k].language {
                RuleLanguage::Single(s) => s.clone(),
                RuleLanguage::Multiple(v) => String::new(),
            };
            proof {
                assert(language@ == rule_language_name(rd[k as int].language));
            }
            let keep = patterns_supported(&patterns);
            if keep {
                let hr = HeuristicRule { language, extensions: copy_strings(&exts), patterns };
                proof {
                    assert(hr@ =~~= HeuristicRuleV {
                        language: rule_language_name(rd[k as int].language),
                        extensions: ed,
                        patterns: rule_patterns(nd, rd[k as int]),
                    });
                }
                out.push(hr);
                proof {
                    assert(out.deep_view() =~~= prev.push(out@.last()@));
                }
            }
            proof {
                assert(rd.take(k + 1).drop_last() =~= rd.take(k as int));
                assert(rd.take(k + 1).last() == rd[k as int]);
                assert(out.deep_view() =~~= expand_heuristics(nd, bd.take(b as int))
                    + rules_of_block(nd, ed, rd.take(k + 1)));
            }
            k = k + 1;
        }
        proof {
            assert(rd.take(rules.len() as int) =~= rd);
            assert(bd.take(b + 1).drop_last() =~= bd.take(b as int));
            assert(bd.take(b + 1).last() == bd[b as int]);
            assert(out.deep_view() =~~= expand_heuristics(nd, bd.take(b + 1)));
        }
        b = b + 1;
    }
    proof {
        assert(bd.take(blocks.len() as int) =~= bd);
    }
    out
}

/// The pattern value a node denotes: one string, or a list of strings.
pub open spec fn pattern_value_of(n: YamlNodeV) -> Option<PatternValueV> {
    match n {
        YamlNodeV::Str(s) => Some(PatternValueV::Single(s)),
        YamlNodeV::List(items) => match str_items_of(items) {
            Some(l) => Some(PatternValueV::Multiple(l)),
            None => None,
        },
        _ => None,
    }
}

/// The language field a node denotes: one name, or a list of names.
pub open spec fn rule_language_of(n: YamlNodeV) -> Option<RuleLanguageV> {
    match pattern_value_of(n) {
        Some(PatternValueV::Single(s)) => Some(RuleLanguageV::Single(s)),
        Some(PatternValueV::Multiple(l)) => Some(RuleLanguageV::Multiple(l)),
        None => None,
    }
}

/// The `and` conjunct a node denotes.
pub open spec fn named_pattern_of(n: YamlNodeV) -> Option<NamedPatternV> {
    match n {
        YamlNodeV::Mapping(fs) => match opt_str_field(fs, "pattern"@) {
            Some(pattern) => match map_get(fs, "named_pattern"@) {
                None => Some(NamedPatternV { pattern, named_pattern: None }),
                Some(x) => match pattern_value_of(x) {
                    Some(pv) => Some(NamedPatternV { pattern, named_pattern: Some(pv) }),
                    None => None,
                },
            },
            None => None,
        },
        _ => None,
    }
}

/// The conjuncts a list of nodes denotes, in order.
pub open spec fn named_patterns_of(items: Seq<YamlNodeV>) -> Option<Seq<NamedPatternV>>
    decreases items.len(),
{
    if items.len() == 0 {
        Some(Seq::empty())
    } else {
        match named_pattern_of(items.first()) {
            Some(np) => match named_patterns_of(items.drop_first()) {
                Some(rest) => Some(seq![np] + rest),
                None => None,
            },
            None => None,
        }
    }
}

/// An optional pattern field.
pub open spec fn opt_pattern_field(fs: Seq<(YamlNodeV, YamlNodeV)>, key: Seq<char>) -> Option<
    Option<PatternValueV>,
> {
    match map_get(fs, key) {
        None => Some(None),
        Some(x) => match pattern_value_of(x) {
            Some(pv) => Some(Some(pv)),
            None => None,
        },
    }
}

/// An optional `and` list.
pub open spec fn opt_and_field(fs: Seq<(YamlNodeV, YamlNodeV)>) -> Option<
    Option<Seq<NamedPatternV>>,
> {
    match map_get(fs, "and"@) {
        None => Some(None),
        Some(x) => match x {
            YamlNodeV::List(items) => match named_patterns_of(items) {
                Some(l) => Some(Some(l)),
                None => None,
            },
            _ => None,
        },
    }
}

/// The raw rule a node denotes: a `language` field is required.
pub open spec fn rule_of(n: YamlNodeV) -> Option<RuleV> {
    match n {
        YamlNodeV::Mapping(fs) => match map_get(fs, "language"@) {
            Some(ln) => match rule_language_of(ln) {
                Some(language) => match opt_pattern_field(fs, "pattern"@) {
                    Some(pattern) => match opt_and_field(fs) {
                        Some(and_rules) => Some(RuleV { language, and_rules, pattern }),
                        None => None,
                    },
                    None => None,
                },
                None => None,
            },
            None => None,
        },
        _ => None,
    }
}

/// The raw rules a list of nodes denotes, in order.
pub open spec fn rules_list_of(items: Seq<YamlNodeV>) -> Option<Seq<RuleV>>
    decreases items.len(),
{
    if items.len() == 0 {
        Some(Seq::empty())
    } else {
        match rule_of(items.first()) {
            Some(r) => match rules_list_of(items.drop_first()) {
                Some(rest) => Some(seq![r] + rest),
                None => None,
            },
            None => None,
        }
    }
}

/// The disambiguation block a node denotes: `extensions` and `rules`
/// are both required.
pub open spec fn block_of(n: YamlNodeV) -> Option<DisambiguationV> {
    match n {
        YamlNodeV::Mapping(fs) => match map_get(fs, "extensions"@) {
            Some(en) => match str_list_of(en) {
                Some(extensions) => match map_get(fs, "rules"@) {
                    Some(YamlNodeV::List(items)) => match rules_list_of(items) {
                        Some(rules) => Some(DisambiguationV { extensions, rules }),
                        None => None,
                    },
                    _ => None,
                },
                None => None,
            },
            None => None,
        },
        _ => None,
    }
}

/// The blocks a list of nodes denotes, in order.
pub open spec fn blocks_of(items: Seq<YamlNodeV>) -> Option<Seq<DisambiguationV>>
    decreases items.len(),
{
    if items.len() == 0 {
        Some(Seq::empty())
    } else {
        match block_of(items.first()) {
            Some(b) => match blocks_of(items.drop_first()) {
                Some(rest) => Some(seq![b] + rest),
                None => None,
            },
            None => None,
        }
    }
}

/// The named patterns a mapping denotes: each key a string, each value
/// a pattern or list of patterns, in document order.
pub open spec fn nps_entries_of(es: Seq<(YamlNodeV, YamlNodeV)>) -> Option<
    Seq<(Seq<char>, RuleLanguageV)>,
>
    decreases es.len(),
{
    if es.len() == 0 {
        Some(Seq::empty())
    } else {
        match es.first().0 {
            YamlNodeV::Str(name) => match rule_language_of(es.first().1) {
                Some(v) => match nps_entries_of(es.drop_first()) {
                    Some(rest) => Some(seq![(name, v)] + rest),
                    None => None,
                },
                None => None,
            },
            _ => None,
        }
    }
}

/// The named patterns and disambiguation blocks a heuristics document
/// denotes, when it parses and both top-level fields have the right
/// shape.
pub open spec fn heuristics_doc_of(s: Seq<char>) -> Option<
    (Seq<(Seq<char>, RuleLanguageV)>, Seq<DisambiguationV>),
> {
    match yaml_doc_of(s) {
        Some(YamlNodeV::Mapping(top)) => match map_get(top, "named_patterns"@) {
            Some(YamlNodeV::Mapping(es)) => match nps_entries_of(es) {
                Some(nps) => match map_get(top, "disambiguations"@) {
                    Some(YamlNodeV::List(items)) => match blocks_of(items) {
                        Some(blocks) => Some((nps, blocks)),
                        None => None,
                    },
                    _ => None,
                },
                None => None,
            },
            _ => None,
        },
        _ => None,
    }
}

/// Reads a pattern field that is one string or a list of strings.
fn parse_pattern_value(n: &YamlNode) -> (r: Result<PatternValue, LinguistError>)
    ensures
        r matches Ok(pv) ==> pattern_value_of(n@) == Some(pv@),
        (r is Err) == (pattern_value_of(n@) is None),
        r matches Err(e) ==> e == LinguistError::DeserializationError,
{
    match n {
        YamlNode::Str(s) => Ok(PatternValue::Single(s.clone())),
        _ => match as_str_list(n) {
            Ok(l) => Ok(PatternValue::Multiple(l)),
            Err(e) => Err(e),
        },
    }
}

/// Reads a rule's language field.
fn parse_rule_language(n: &YamlNode) -> (r: Result<RuleLanguage, LinguistError>)
    ensures
        r matches Ok(l) ==> rule_language_of(n@) == Some(l@),
        (r is Err) == (rule_language_of(n@) is None),
        r matches Err(e) ==> e == LinguistError::DeserializationError,
{
    match parse_pattern_value(n) {
        Ok(PatternValue::Single(s)) => Ok(RuleLanguage::Single(s)),
        Ok(PatternValue::Multiple(l)) => Ok(RuleLanguage::Multiple(l)),
        Err(e) => Err(e),
    }
}

/// Reads one `and` conjunct.
fn parse_named_pattern(n: &YamlNode) -> (r: Result<NamedPattern, LinguistError>)
    ensures
        r matches Ok(np) ==> named_pattern_of(n@) == Some(np@),
        (r is Err) == (named_pattern_of(n@) is None),
        r matches Err(e) ==> e == LinguistError::DeserializationError,
{
    match n {
        YamlNode::Mapping(entries) => {
            proof {
                lemma_pairs_deep_view(entries);
            }
            let pattern = match get_opt_str_field(entries, "pattern") {
                Ok(p) => p,
                Err(e) => {
                    return Err(e);
                },
            };
            let named_pattern: Option<PatternValue> = match get_field(entries, "named_pattern") {
                None => None,
                Some(x) => match parse_pattern_value(x) {
                    Ok(pv) => Some(pv),
                    Err(e) => {
                        return Err(e);
                    },
                },
            };
            let np = NamedPattern { pattern, named_pattern };
            proof {
                assert(named_pattern_of(n@) =~~= Some(np@));
            }
            Ok(np)
        },
        _ => Err(LinguistError::DeserializationError),
    }
}

/// Reads one raw rule.
fn parse_rule(n: &YamlNode) -> (r: Result<Rule, LinguistError>)
    ensures
        r matches Ok(rule) ==> rule_of(n@) == Some(rule@),
        (r is Err) == (rule_of(n@) is None),
        r matches Err(e) ==> e == LinguistError::DeserializationError,
{
    match n {
        YamlNode::Mapping(entries) => {
            proof {
                lemma_pairs_deep_view(entries);
            }
            let language = match get_field(entries, "language") {
                Some(x) => match parse_rule_language(x) {
                    Ok(l) => l,
                    Err(e) => {
                        return Err(e);
                    },
                },
                None => {
                    return Err(LinguistError::DeserializationError);
                },
            };
            let pattern: Option<PatternValue> = match get_field(entries, "pattern") {
                None => None,
                Some(x) => match parse_pattern_value(x) {
                    Ok(pv) => Some(pv),
                    Err(e) => {
                        return Err(e);
                    },
                },
            };
            let and_rules: Option<Vec<NamedPattern>> = match get_field(entries, "and") {
                None => None,
                Some(x) => match x {
                    YamlNode::List(items) => {
                        proof {
                            lemma_nodes_deep_view(items);
                        }
                        let ghost itd = items.deep_view();
                        let mut parsed: Vec<NamedPattern> = Vec::new();
                        let ghost mut done: Seq<NamedPatternV> = Seq::empty();
                        proof {
                            assert(itd.skip(0) =~= itd);
                            if named_patterns_of(itd) is Some {
                                assert(done + named_patterns_of(itd).unwrap() =~= named_patterns_of(
                                    itd,
                                ).unwrap());
                            }
                            assert(parsed.deep_view() =~~= done);
                        }
                        let mut k: usize = 0;
                        while k < items.len()
                            invariant
                                itd == items.deep_view(),
                                itd.len() == items.len(),
                                k <= items.len(),
                                done.len() == k,
                                parsed.deep_view() == done,
                                named_patterns_of(itd) is None ==> rule_of(n@) is None,
                                opt_prepend(done, named_patterns_of(itd.skip(k as int)))
                                    == named_patterns_of(itd),
                            decreases items.len() - k,
                        {
                            let ghost prev = parsed.deep_view();
                            proof {
                                assert(itd.skip(k as int).first() == itd[k as int]);
                                assert(itd.skip(k as int).drop_first() =~= itd.skip(k + 1));
                            }
                            match parse_named_pattern(&items[k]) {
                                Ok(np) => {
                                    let ghost npv = np@;
                                    parsed.push(np);
                                    proof {
                                        if named_patterns_of(itd.skip(k + 1)) is Some {
                                            let rest = named_patterns_of(itd.skip(k + 1)).unwrap();
                                            assert(done.push(npv) + rest =~= done + (seq![npv]
                                                + rest));
                                        }
                                        done = done.push(npv);
                                        assert(parsed.deep_view() =~~= prev.push(npv));
                                    }
                                },
                                Err(e) => {
                                    proof {
                                        assert(named_patterns_of(itd.skip(k as int)) is None);
                                    }
                                    return Err(e);
                                },
                            }
                            k = k + 1;
                        }
                        proof {
                            assert(itd.skip(items.len() as int).len() == 0);
                            assert(done + Seq::<NamedPatternV>::empty() =~= done);
                            assert(named_patterns_of(itd) == Some(done));
                        }
                        Some(parsed)
                    },
                    _ => {
                        return Err(LinguistError::DeserializationError);
                    },
                },
            };
            let rule = Rule { language, and_rules, pattern };
            proof {
                assert(rule_of(n@) =~~= Some(rule@));
            }
            Ok(rule)
        },
        _ => Err(LinguistError::DeserializationError),
    }
}

/// Reads one disambiguation block.
fn parse_disambiguation(n: &YamlNode) -> (r: Result<Disambiguation, LinguistError>)
    ensures
        r matches Ok(d) ==> block_of(n@) == Some(d@),
        (r is Err) == (block_of(n@) is None),
        r matches Err(e) ==> e == LinguistError::DeserializationError,
{
    match n {
        YamlNode::Mapping(entries) => {
            proof {
                lemma_pairs_deep_view(entries);
            }
            let extensions = match get_field(entries, "extensions") {
                Some(x) => match as_str_list(x) {
                    Ok(l) => l,
                    Err(e) => {
                        return Err(e);
                    },
                },
                None => {
                    return Err(LinguistError::DeserializationError);
                },
            };
            let rule_items = match get_field(entries, "rules") {
                Some(x) => match x {
                    YamlNode::List(items) => items,
                    _ => {
                        return Err(LinguistError::DeserializationError);
                    },
                },
                None => {
                    return Err(LinguistError::DeserializationError);
                },
            };
            proof {
                lemma_nodes_deep_view(rule_items);
            }
            let ghost itd = rule_items.deep_view();
            let mut rules: Vec<Rule> = Vec::new();
            let ghost mut done: Seq<RuleV> = Seq::empty();
            proof {
                assert(itd.skip(0) =~= itd);
                if rules_list_of(itd) is Some {
                    assert(done + rules_list_of(itd).unwrap() =~= rules_list_of(itd).unwrap());
                }
                assert(rules.deep_view() =~~= done);
            }
            let mut k: usize = 0;
            while k < rule_items.len()
                invariant
                    itd == rule_items.deep_view(),
                    itd.len() == rule_items.len(),
                    k <= rule_items.len(),
                    done.len() == k,
                    rules.deep_view() == done,
                    rules_list_of(itd) is None ==> block_of(n@) is None,
                    opt_prepend(done, rules_list_of(itd.skip(k as int))) == rules_list_of(itd),
                decreases rule_items.len() - k,
            {
                let ghost prev = rules.deep_view();
                proof {
                    assert(itd.skip(k as int).first() == itd[k as int]);
                    assert(itd.skip(k as int).drop_first() =~= itd.skip(k + 1));
                }
                match parse_rule(&rule_items[k]) {
                    Ok(rl) => {
                        let ghost rv = rl@;
                        rules.push(rl);
                        proof {
                            if rules_list_of(itd.skip(k + 1)) is Some {
                                let rest = rules_list_of(itd.skip(k + 1)).unwrap();
                                assert(done.push(rv) + rest =~= done + (seq![rv] + rest));
                            }
                            done = done.push(rv);
                            assert(rules.deep_view() =~~= prev.push(rv));
                        }
                    },
                    Err(e) => {
                        proof {
                            assert(rules_list_of(itd.skip(k as int)) is None);
                        }
                        return Err(e);
                    },
                }
                k = k + 1;
            }
            proof {
                assert(itd.skip(rule_items.len() as int).len() == 0);
                assert(done + Seq::<RuleV>::empty() =~= done);
                assert(rules_list_of(itd) == Some(done));
            }
            let d = Disambiguation { extensions, rules };
            proof {
                assert(block_of(n@) =~~= Some(d@));
            }
            Ok(d)
        },
        _ => Err(LinguistError::DeserializationError),
    }
}

/// Loads a `heuristics.yml` document: the named patterns are resolved,
/// each rule of each disambiguation block becomes one flat
/// [`HeuristicRule`] gated on the block's normalized extensions, and
/// rules using unsupported regex features are dropped. The load
/// succeeds exactly when the document denotes a mapping of the right
/// shape, and every failure is a deserialization error.
pub fn load_github_linguist_heuristics(content: &str) -> (r: Result<
    Vec<HeuristicRule>,
    LinguistError,
>)
    ensures
        r matches Ok(rules) ==> heuristics_doc_of(content@) matches Some(doc)
            && rules.deep_view() == expand_heuristics(doc.0, doc.1),
        (r is Err) == (heuristics_doc_of(content@) is None),
        r matches Err(e) ==> e == LinguistError::DeserializationError,
{
    let doc = match parse_yaml_doc(content) {
        Some(d) => d,
        None => {
            return Err(LinguistError::DeserializationError);
        },
    };
    let top = match &doc {
        YamlNode::Mapping(e) => e,
        _ => {
            return Err(LinguistError::DeserializationError);
        },
    };
    proof {
        lemma_pairs_deep_view(top);
    }
    let np_entries = match get_field(top, "named_patterns") {
        Some(x) => match x {
            YamlNode::Mapping(e) => e,
            _ => {
                return Err(LinguistError::DeserializationError);
            },
        },
        None => {
            return Err(LinguistError::DeserializationError);
        },
    };
    proof {
        lemma_pairs_deep_view(np_entries);
    }
    let ghost npd = np_entries.deep_view();
    let mut nps: Vec<(String, RuleLanguage)> = Vec::new();
    let ghost mut nps_done: Seq<(Seq<char>, RuleLanguageV)> = Seq::empty();
    proof {
        assert(npd.skip(0) =~= npd);
        if nps_entries_of(npd) is Some {
            assert(nps_done + nps_entries_of(npd).unwrap() =~= nps_entries_of(npd).unwrap());
        }
        assert(nps.deep_view() =~~= nps_done);
    }
    let mut i: usize = 0;
    while i < np_entries.len()
        invariant
            npd == np_entries.deep_view(),
            npd.len() == np_entries.len(),
            i <= np_entries.len(),
            nps_done.len() == i,
            nps.deep_view() == nps_done,
            nps_entries_of(npd) is None ==> heuristics_doc_of(content@) is None,
            opt_prepend(nps_done, nps_entries_of(npd.skip(i as int))) == nps_entries_of(npd),
        decreases np_entries.len() - i,
    {
        let ghost prev = nps.deep_view();
        proof {
            assert(npd.skip(i as int).first() == npd[i as int]);
            assert(npd.skip(i as int).drop_first() =~= npd.skip(i + 1));
        }
        let name: String = match &np_entries[i].0 {
            YamlNode::Str(s) => s.clone(),
            _ => {
                proof {
                    assert(nps_entries_of(npd.skip(i as int)) is None);
                }
                return Err(LinguistError::DeserializationError);
            },
        };
        let ghost nv = name@;
        match parse_rule_language(&np_entries[i].1) {
            Ok(value) => {
                let ghost vv = value@;
                nps.push((name, value));
                proof {
                    if nps_entries_of(npd.skip(i + 1)) is Some {
                        let rest = nps_entries_of(npd.skip(i + 1)).unwrap();
                        assert(nps_done.push((nv, vv)) + rest =~= nps_done + (seq![(nv, vv)]
                            + rest));
                    }
                    nps_done = nps_done.push((nv, vv));
                    assert(nps.deep_view() =~~= prev.push((nv, vv)));
                }
            },
            Err(e) => {
                proof {
                    assert(nps_entries_of(npd.skip(i as int)) is None);
                }
                return Err(e);
            },
        }
        i = i + 1;
    }
    proof {
        assert(npd.skip(np_entries.len() as int).len() == 0);
        assert(nps_done + Seq::<(Seq<char>, RuleLanguageV)>::empty() =~= nps_done);
        assert(nps_entries_of(npd) == Some(nps_done));
    }
    let block_items = match get_field(top, "disambiguations") {
        Some(x) => match x {
            YamlNode::List(items) => items,
            _ => {
                return Err(LinguistError::DeserializationError);
            },
        },
        None => {
            return Err(LinguistError::DeserializationError);
        },
    };
    proof {
        lemma_nodes_deep_view(block_items);
    }
    let ghost bd = block_items.deep_view();
    let mut blocks: Vec<Disambiguation> = Vec::new();
    let ghost mut blocks_done: Seq<DisambiguationV> = Seq::empty();
    proof {
        assert(bd.skip(0) =~= bd);
        if blocks_of(bd) is Some {
            assert(blocks_done + blocks_of(bd).unwrap() =~= blocks_of(bd).unwrap());
        }
        assert(blocks.deep_view() =~~= blocks_done);
    }
    let mut i: usize = 0;
    while i < block_items.len()
        invariant
            bd == block_items.deep_view(),
            bd.len() == block_items.len(),
            i <= block_items.len(),
            blocks_done.len() == i,
            blocks.deep_view() == blocks_done,
            blocks_of(bd) is None ==> heuristics_doc_of(content@) is None,
            opt_prepend(blocks_done, blocks_of(bd.skip(i as int))) == blocks_of(bd),
        decreases block_items.len() - i,
    {
        let ghost prev = blocks.deep_view();
        proof {
            assert(bd.skip(i as int).first() == bd[i as int]);
            assert(bd.skip(i as int).drop_first() =~= bd.skip(i + 1));
        }
        match parse_disambiguation(&block_items[i]) {
            Ok(d) => {
                let ghost dv = d@;
                blocks.push(d);
                proof {
                    if blocks_of(bd.skip(i + 1)) is Some {
                        let rest = blocks_of(bd.skip(i + 1)).unwrap();
                        assert(blocks_done.push(dv) + rest =~= blocks_done + (seq![dv] + rest));
                    }
                    blocks_done = blocks_done.push(dv);
                    assert(blocks.deep_view() =~~= prev.push(dv));
                }
            },
            Err(e) => {
                proof {
                    assert(blocks_of(bd.skip(i as int)) is None);
                }
                return Err(e);
            },
        }
        i = i + 1;
    }
    proof {
        assert(bd.skip(block_items.len() as int).len() == 0);
        assert(blocks_done + Seq::<DisambiguationV>::empty() =~= blocks_done);
        assert(blocks_of(bd) == Some(blocks_done));
    }
    let rules = expand_heuristics_exec(&nps, &blocks);
    proof {
        assert(heuristics_doc_of(content@) == Some((nps_done, blocks_done)));
    }
    Ok(rules)
}

/// The patterns kept by the dialect filter, in order.
pub open spec fn filter_supported(ps: Seq<Seq<char>>) -> Seq<Seq<char>>
    decreases ps.len(),
{
    if ps.len() == 0 {
        Seq::empty()
    } else {
        filter_supported(ps.drop_last()) + (if !is_unsupported_regex_spec(ps.last()) {
            seq![ps.last()]
        } else {
            Seq::empty()
        })
    }
}

/// Keeps the patterns inside the supported regex dialect.
fn filter_supported_exec(v: &Vec<String>) -> (r: Vec<String>)
    ensures
        r.deep_view() == filter_supported(v.deep_view()),
{
    let ghost vd = v.deep_view();
    let mut out: Vec<String> = Vec::new();
    proof {
        assert(out.deep_view() =~~= filter_supported(vd.take(0)));
    }
    let mut i: usize = 0;
    while i < v.len()
        invariant
            vd == v.deep_view(),
            vd.len() == v.len(),
            i <= v.len(),
            out.deep_view() == filter_supported(vd.take(i as int)),
        decreases v.len() - i,
    {
        let ghost prev = out.deep_view();
        if !is_unsupported_regex_syntax(v[i].as_str()) {
            out.push(v[i].clone());
            proof {
                assert(cloned::<String>(v[i as int], out@.last()));
                assert(out.deep_view() =~~= prev.push(vd[i as int]));
            }
        }
        proof {
            assert(vd.take(i + 1).drop_last() =~= vd.take(i as int));
            assert(vd.take(i + 1).last() == vd[i as int]);
        }
        i = i + 1;
    }
    proof {
        assert(vd.take(v.len() as int) =~= vd);
    }
    out
}

/// The flat string list a document denotes, when it is one.
pub open spec fn string_list_of_doc(s: Seq<char>) -> Option<Seq<Seq<char>>> {
    match yaml_doc_of(s) {
        Some(YamlNodeV::List(items)) => str_items_of(items),
        _ => None,
    }
}

/// Deserializes a YAML document that denotes a flat list of strings.
pub fn deserialize_strings(content: &str) -> (r: Result<Vec<String>, LinguistError>)
    ensures
        r matches Ok(v) ==> string_list_of_doc(content@) == Some(v.deep_view()),
        (r is Err) == (string_list_of_doc(content@) is None),
        r matches Err(e) ==> e == LinguistError::DeserializationError,
{
    let doc = match parse_yaml_doc(content) {
        Some(d) => d,
        None => {
            return Err(LinguistError::DeserializationError);
        },
    };
    match as_str_list(&doc) {
        Ok(v) => Ok(v),
        Err(e) => Err(e),
    }
}

/// Loads a `vendor.yml` document: the flat list of path patterns, with
/// patterns outside the supported dialect dropped. The load succeeds
/// exactly when the document denotes a list of strings.
pub fn load_github_vendors(content: &str) -> (r: Result<Vec<String>, LinguistError>)
    ensures
        r matches Ok(v) ==> string_list_of_doc(content@) matches Some(l) && v.deep_view()
            == filter_supported(l),
        (r is Err) == (string_list_of_doc(content@) is None),
        r matches Err(e) ==> e == LinguistError::DeserializationError,
{
    match deserialize_strings(content) {
        Ok(raw) => Ok(filter_supported_exec(&raw)),
        Err(e) => Err(e),
    }
}

/// Loads a `documentation.yml` document: the flat list of path
/// patterns, with patterns outside the supported dialect dropped. The
/// load succeeds exactly when the document denotes a list of strings.
pub fn load_github_documentation(content: &str) -> (r: Result<Vec<String>, LinguistError>)
    ensures
        r matches Ok(v) ==> string_list_of_doc(content@) matches Some(l) && v.deep_view()
            == filter_supported(l),
        (r is Err) == (string_list_of_doc(content@) is None),
        r matches Err(e) ==> e == LinguistError::DeserializationError,
{
    match deserialize_strings(content) {
        Ok(raw) => Ok(filter_supported_exec(&raw)),
        Err(e) => Err(e),
    }
}

} // verus!
