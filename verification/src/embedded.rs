//! The embedded-table form of the corpus: language definitions stored as
//! static records, and the round trip between a loaded definition and its
//! record.

use vstd::prelude::*;

use crate::container::{lemma_norm_ext_id, wf_ext};
use crate::github::{language_of_def, norm_all, opt_strings, GhLanguageDef, GhLanguageDefV};
use crate::resolver::{copy_opt_string, copy_strings, Language, LanguageV, Scope};
use crate::text::lower;

verus! {

/// One row of an embedded language table, borrowing its texts from the
/// compiled artifact.
#[derive(Debug, Clone)]
pub struct StaticLanguage<'src> {
    pub name: &'src str,
    pub scope: &'src str,
    pub aliases: Option<&'src [&'src str]>,
    pub extensions: Option<&'src [&'src str]>,
    pub filenames: Option<&'src [&'src str]>,
    pub interpreters: Option<&'src [&'src str]>,
    pub color: Option<&'src str>,
    pub parent: Option<&'src str>,
}

impl<'src> View for StaticLanguage<'src> {
    type V = GhLanguageDefV;

    open spec fn view(&self) -> GhLanguageDefV {
        GhLanguageDefV {
            color: self.color.deep_view(),
            name: self.name@,
            scope: self.scope@,
            aliases: self.aliases.deep_view(),
            extensions: self.extensions.deep_view(),
            filenames: self.filenames.deep_view(),
            interpreters: self.interpreters.deep_view(),
            group: self.parent.deep_view(),
        }
    }
}

/// Copies a borrowed list of strings into owned form.
fn strs_to_vec(items: &[&str]) -> (r: Vec<String>)
    ensures
        r.deep_view() == items.deep_view(),
{
    let mut r: Vec<String> = Vec::new();
    let n = items.len();
    let mut i: usize = 0;
    while i < n
        invariant
            n == items@.len(),
            i <= n,
            r.deep_view().len() == i,
            forall|j: int| 0 <= j < i ==> r.deep_view()[j] == items.deep_view()[j],
        decreases n - i,
    {
        let ghost prev = r.deep_view();
        let s: String = items[i].to_owned();
        r.push(s);
        proof {
            assert(r.deep_view() =~~= prev.push(r@.last()@));
        }
        i = i + 1;
    }
    proof {
        assert(r.deep_view() =~~= items.deep_view());
    }
    r
}

impl<'src> StaticLanguage<'src> {
    /// Rebuilds the full definition record from the embedded row.
    pub fn to_def(&self) -> (r: GhLanguageDef)
        ensures
            r@ == self@,
    {
        let r = GhLanguageDef {
            color: match self.color {
                Some(c) => Some(c.to_owned()),
                None => None,
            },
            name: self.name.to_owned(),
            scope: self.scope.to_owned(),
            aliases: match self.aliases {
                Some(a) => Some(strs_to_vec(a)),
                None => None,
            },
            extensions: match self.extensions {
                Some(a) => Some(strs_to_vec(a)),
                None => None,
            },
            filenames: match self.filenames {
                Some(a) => Some(strs_to_vec(a)),
                None => None,
            },
            interpreters: match self.interpreters {
                Some(a) => Some(strs_to_vec(a)),
                None => None,
            },
            group: match self.parent {
                Some(g) => Some(g.to_owned()),
                None => None,
            },
        };
        proof {
            assert(r@ =~~= self@);
        }
        r
    }

    /// Normalizes the embedded row into a [`Language`], exactly as the
    /// YAML loader would.
    pub fn to_language(&self) -> (r: Language)
        ensures
            r@ == language_of_def(self@),
    {
        self.to_def().to_language()
    }
}

/// The embedded record a loaded definition serializes to: each field
/// written back as it is stored.
pub open spec fn record_of_language(l: LanguageV) -> GhLanguageDefV {
    GhLanguageDefV {
        color: l.color,
        name: l.name,
        scope: Scope::scope_name(l.scope),
        aliases: Some(l.aliases),
        extensions: Some(l.extensions),
        filenames: Some(l.filenames),
        interpreters: Some(l.interpreters),
        group: l.parent,
    }
}

impl Language {
    /// Serializes the definition to its embedded record.
    pub fn to_record(&self) -> (r: GhLanguageDef)
        ensures
            r@ == record_of_language(self@),
    {
        let r = GhLanguageDef {
            color: copy_opt_string(&self.color),
            name: self.name.clone(),
            scope: self.scope.as_str().to_owned(),
            aliases: Some(copy_strings(&self.aliases)),
            extensions: Some(copy_strings(&self.extensions)),
            filenames: Some(copy_strings(&self.filenames)),
            interpreters: Some(copy_strings(&self.interpreters)),
            group: copy_opt_string(&self.parent),
        };
        proof {
            assert(r@ =~~= record_of_language(self@));
        }
        r
    }
}

/// Parsing the display name of a scope gives the scope back.
pub proof fn lemma_scope_round_trip(s: Scope)
    ensures
        Scope::scope_of(Scope::scope_name(s)) == s,
{
    reveal_strlit("Programming");
    reveal_strlit("programming");
    reveal_strlit("Markup");
    reveal_strlit("markup");
    reveal_strlit("Data");
    reveal_strlit("data");
    reveal_strlit("Prose");
    reveal_strlit("prose");
    reveal_strlit("Unknown");
    match s {
        Scope::Programming => {
            assert(lower("Programming"@) =~= "programming"@);
        },
        Scope::Markup => {
            assert(lower("Markup"@) =~= "markup"@);
        },
        Scope::Data => {
            assert(lower("Data"@) =~= "data"@);
        },
        Scope::Prose => {
            assert(lower("Prose"@) =~= "prose"@);
        },
        Scope::Unknown => {
            assert(lower("Unknown"@) =~= seq!['u', 'n', 'k', 'n', 'o', 'w', 'n']);
            assert(lower("Unknown"@) != "programming"@);
            assert(lower("Unknown"@) != "markup"@);
            assert(lower("Unknown"@) != "data"@);
            assert(lower("Unknown"@) != "prose"@);
        },
    }
}

/// Serializing a loaded definition to the embedded-table record and
/// loading it back yields an equal definition, for every record whose
/// stored extensions are normalized — which is exactly how the loader
/// stores them.
pub proof fn lemma_embedded_round_trip(l: LanguageV)
    requires
        forall|i: int| 0 <= i < l.extensions.len() ==> wf_ext(#[trigger] l.extensions[i]),
    ensures
        language_of_def(record_of_language(l)) == l,
{
    lemma_scope_round_trip(l.scope);
    let r = record_of_language(l);
    assert forall|i: int| 0 <= i < l.extensions.len() implies norm_all(opt_strings(r.extensions))[i]
        == l.extensions[i] by {
        lemma_norm_ext_id(l.extensions[i]);
    }
    assert(norm_all(opt_strings(r.extensions)) =~= l.extensions);
    assert(language_of_def(r) =~~= l);
}

} // verus!
