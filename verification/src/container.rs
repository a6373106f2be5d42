//! The indexed, immutable bundle of language definitions and heuristic
//! rules that queries run against. Definitions are registered once, in
//! order; every lookup is defined over that registration order.

use vstd::prelude::*;
use vstd::pervasive::VecAdditionalExecFns;
use vstd::string::StrSliceExecFns;

use crate::resolver::{HeuristicRule, HeuristicRuleV, Language, LanguageV};
use crate::text::{
    base_name, base_name_str, extension_of, extension_of_str, is_upper, lower, lower_str, str_eq,
    str_eq_lower, vec_contains_str,
};

verus! {

/// A normalized extension: lower-cased, with no single leading dot left.
pub open spec fn norm_ext(e: Seq<char>) -> Seq<char> {
    let l = lower(e);
    if l.len() > 0 && l[0] == '.' {
        l.drop_first()
    } else {
        l
    }
}

/// A well-formed stored extension: it does not start with a dot and holds
/// no uppercase letter.
pub open spec fn wf_ext(e: Seq<char>) -> bool {
    &&& e.len() > 0 ==> e[0] != '.'
    &&& forall|i: int| 0 <= i < e.len() ==> !is_upper(#[trigger] e[i])
}

/// Normalization yields a well-formed extension, provided the input does
/// not begin with two dots: only a single leading dot is stripped, so a
/// second one would survive.
pub proof fn lemma_norm_ext_wf(e: Seq<char>)
    requires
        e.len() >= 2 ==> !(e[0] == '.' && e[1] == '.'),
    ensures
        wf_ext(norm_ext(e)),
{
    let l = lower(e);
    assert forall|i: int| 0 <= i < l.len() implies !is_upper(#[trigger] l[i]) by {
        assert(l[i] == crate::text::lower_char(e[i]));
    }
    if l.len() > 0 && l[0] == '.' {
        let d = l.drop_first();
        assert forall|i: int| 0 <= i < d.len() implies !is_upper(#[trigger] d[i]) by {
            assert(d[i] == l[i + 1]);
        }
        if d.len() > 0 {
            assert(d[0] == crate::text::lower_char(e[1]));
        }
    }
}

/// A normalized extension never holds an uppercase letter, whatever the
/// source was.
pub proof fn lemma_norm_ext_lowercase(e: Seq<char>)
    ensures
        forall|i: int| 0 <= i < norm_ext(e).len() ==> !is_upper(#[trigger] norm_ext(e)[i]),
{
    let l = lower(e);
    assert forall|i: int| 0 <= i < l.len() implies !is_upper(#[trigger] l[i]) by {
        assert(l[i] == crate::text::lower_char(e[i]));
    }
    if l.len() > 0 && l[0] == '.' {
        assert forall|i: int| 0 <= i < norm_ext(e).len() implies !is_upper(
            #[trigger] norm_ext(e)[i],
        ) by {
            assert(norm_ext(e)[i] == l[i + 1]);
        }
    }
}

/// On an already well-formed extension that holds no dot at all,
/// normalization is the identity.
pub proof fn lemma_norm_ext_id(e: Seq<char>)
    requires
        wf_ext(e),
    ensures
        norm_ext(e) == e,
{
    let l = lower(e);
    assert forall|i: int| 0 <= i < l.len() implies l[i] == e[i] by {
        assert(l[i] == crate::text::lower_char(e[i]));
        assert(!is_upper(e[i]));
    }
    assert(l =~= e);
}

/// Normalizes an extension for storage or lookup.
pub fn normalize_ext(e: &str) -> (r: String)
    ensures
        r@ == norm_ext(e@),
{
    let l = lower_str(e);
    let n: usize = l.as_str().unicode_len();
    if n > 0 && l.as_str().get_char(0) == '.' {
        let stripped = l.as_str().substring_char(1, n);
        proof {
            assert(stripped@ =~= l@.drop_first());
        }
        stripped.to_owned()
    } else {
        l
    }
}

/// The mathematical shadow of the container: the registered definitions
/// and the per-extension rule buckets, in registration order.
#[verifier::ext_equal]
pub ghost struct ContainerV {
    pub languages: Seq<LanguageV>,
    pub heuristics: Seq<(Seq<char>, Seq<HeuristicRuleV>)>,
}

/// Holds [`Language`] and [`HeuristicRule`] definitions and indexes them
/// for the resolver's queries.
#[derive(Debug, Default)]
pub struct InMemoryLanguageContainer {
    languages: Vec<Language>,
    heuristics: Vec<(String, Vec<HeuristicRule>)>,
}

impl View for InMemoryLanguageContainer {
    type V = ContainerV;

    closed spec fn view(&self) -> ContainerV {
        ContainerV { languages: self.languages.deep_view(), heuristics: self.heuristics.deep_view() }
    }
}

/// The first bucket registered under `key`, if any.
pub open spec fn bucket_of(
    h: Seq<(Seq<char>, Seq<HeuristicRuleV>)>,
    key: Seq<char>,
) -> Option<Seq<HeuristicRuleV>>
    decreases h.len(),
{
    if h.len() == 0 {
        None
    } else if h.first().0 == key {
        Some(h.first().1)
    } else {
        bucket_of(h.drop_first(), key)
    }
}

/// What registering one rule under `key` does to the buckets: the rule is
/// appended to its bucket unless an equal rule is already there; a missing
/// bucket is created at the end.
pub open spec fn register_rule_spec(
    h: Seq<(Seq<char>, Seq<HeuristicRuleV>)>,
    key: Seq<char>,
    rule: HeuristicRuleV,
) -> Seq<(Seq<char>, Seq<HeuristicRuleV>)>
    decreases h.len(),
{
    if h.len() == 0 {
        seq![(key, seq![rule])]
    } else if h.first().0 == key {
        if h.first().1.contains(rule) {
            h
        } else {
            seq![(key, h.first().1.push(rule))] + h.drop_first()
        }
    } else {
        seq![h.first()] + register_rule_spec(h.drop_first(), key, rule)
    }
}

/// Registering one rule under each extension of a list, left to right.
pub open spec fn register_rule_under_exts(
    h: Seq<(Seq<char>, Seq<HeuristicRuleV>)>,
    rule: HeuristicRuleV,
    exts: Seq<Seq<char>>,
) -> Seq<(Seq<char>, Seq<HeuristicRuleV>)>
    decreases exts.len(),
{
    if exts.len() == 0 {
        h
    } else {
        register_rule_under_exts(register_rule_spec(h, exts.first(), rule), rule, exts.drop_first())
    }
}

/// Registering every rule of a list in order, each under each of its
/// own gating extensions.
pub open spec fn register_all_rules(
    h: Seq<(Seq<char>, Seq<HeuristicRuleV>)>,
    rules: Seq<HeuristicRuleV>,
) -> Seq<(Seq<char>, Seq<HeuristicRuleV>)>
    decreases rules.len(),
{
    if rules.len() == 0 {
        h
    } else {
        register_all_rules(
            register_rule_under_exts(h, rules.first(), rules.first().extensions),
            rules.drop_first(),
        )
    }
}

proof fn lemma_register_rule_at(
    h: Seq<(Seq<char>, Seq<HeuristicRuleV>)>,
    key: Seq<char>,
    rule: HeuristicRuleV,
    i: int,
)
    requires
        0 <= i < h.len(),
        h[i].0 == key,
        forall|j: int| 0 <= j < i ==> h[j].0 != key,
    ensures
        register_rule_spec(h, key, rule) == if h[i].1.contains(rule) {
            h
        } else {
            h.update(i, (key, h[i].1.push(rule)))
        },
    decreases i,
{
    if i == 0 {
        if h.first().1.contains(rule) {
        } else {
            assert(seq![(key, h[0].1.push(rule))] + h.drop_first() =~= h.update(
                0,
                (key, h[0].1.push(rule)),
            ));
        }
    } else {
        assert(h.first().0 != key);
        let t = h.drop_first();
        assert(t[i - 1].0 == key);
        assert forall|j: int| 0 <= j < i - 1 implies t[j].0 != key by {
            assert(t[j] == h[j + 1]);
        }
        lemma_register_rule_at(t, key, rule, i - 1);
        if h[i].1.contains(rule) {
            assert(seq![h.first()] + t =~= h);
        } else {
            assert(seq![h.first()] + t.update(i - 1, (key, t[i - 1].1.push(rule))) =~= h.update(
                i,
                (key, h[i].1.push(rule)),
            ));
        }
    }
}

proof fn lemma_register_rule_absent(
    h: Seq<(Seq<char>, Seq<HeuristicRuleV>)>,
    key: Seq<char>,
    rule: HeuristicRuleV,
)
    requires
        forall|j: int| 0 <= j < h.len() ==> h[j].0 != key,
    ensures
        register_rule_spec(h, key, rule) == h.push((key, seq![rule])),
    decreases h.len(),
{
    if h.len() == 0 {
        assert(register_rule_spec(h, key, rule) =~= h.push((key, seq![rule])));
    } else {
        let t = h.drop_first();
        assert forall|j: int| 0 <= j < t.len() implies t[j].0 != key by {
            assert(t[j] == h[j + 1]);
        }
        lemma_register_rule_absent(t, key, rule);
        assert(seq![h.first()] + t.push((key, seq![rule])) =~= h.push((key, seq![rule])));
    }
}

proof fn lemma_bucket_at(
    h: Seq<(Seq<char>, Seq<HeuristicRuleV>)>,
    key: Seq<char>,
    i: int,
)
    requires
        0 <= i < h.len(),
        h[i].0 == key,
        forall|j: int| 0 <= j < i ==> h[j].0 != key,
    ensures
        bucket_of(h, key) == Some(h[i].1),
    decreases i,
{
    if i == 0 {
    } else {
        let t = h.drop_first();
        assert(t[i - 1].0 == key);
        assert forall|j: int| 0 <= j < i - 1 implies t[j].0 != key by {
            assert(t[j] == h[j + 1]);
        }
        lemma_bucket_at(t, key, i - 1);
    }
}

proof fn lemma_bucket_absent(h: Seq<(Seq<char>, Seq<HeuristicRuleV>)>, key: Seq<char>)
    requires
        forall|j: int| 0 <= j < h.len() ==> h[j].0 != key,
    ensures
        bucket_of(h, key) is None,
    decreases h.len(),
{
    if h.len() == 0 {
    } else {
        let t = h.drop_first();
        assert forall|j: int| 0 <= j < t.len() implies t[j].0 != key by {
            assert(t[j] == h[j + 1]);
        }
        lemma_bucket_absent(t, key);
    }
}

/// Copies a vector of rules, preserving its views exactly.
pub fn copy_rules(v: &Vec<HeuristicRule>) -> (r: Vec<HeuristicRule>)
    ensures
        r.deep_view() == v.deep_view(),
{
    let mut r: Vec<HeuristicRule> = Vec::new();
    proof {
        assert(r.deep_view() =~~= v.deep_view().take(0));
    }
    let mut i: usize = 0;
    while i < v.len()
        invariant
            i <= v.len(),
            r.deep_view() == v.deep_view().take(i as int),
        decreases v.len() - i,
    {
        let ghost prev = r.deep_view();
        let d = v[i].duplicate();
        r.push(d);
        proof {
            assert(r.deep_view() =~~= prev.push(d@));
            assert(prev.push(d@) =~~= v.deep_view().take(i + 1));
        }
        i = i + 1;
    }
    proof {
        assert(v.deep_view().take(v.len() as int) =~= v.deep_view());
    }
    r
}

/// Whether the bucket already holds a rule with exactly this text.
fn bucket_contains(bucket: &Vec<HeuristicRule>, rule: &HeuristicRule) -> (r: bool)
    ensures
        r == bucket.deep_view().contains(rule@),
{
    let mut i: usize = 0;
    while i < bucket.len()
        invariant
            i <= bucket.len(),
            forall|j: int| 0 <= j < i ==> bucket.deep_view()[j] != rule@,
        decreases bucket.len() - i,
    {
        if bucket[i].same_rule(rule) {
            proof {
                assert(bucket.deep_view()[i as int] == rule@);
            }
            return true;
        }
        i = i + 1;
    }
    false
}

impl InMemoryLanguageContainer {
    /// An empty container.
    pub fn new() -> (r: InMemoryLanguageContainer)
        ensures
            r@.languages.len() == 0,
            r@.heuristics.len() == 0,
    {
        InMemoryLanguageContainer { languages: Vec::new(), heuristics: Vec::new() }
    }

    /// Appends one language definition, after everything registered so far.
    pub fn register_language(&mut self, lang: Language)
        ensures
            final(self)@.languages == old(self)@.languages.push(lang@),
            final(self)@.heuristics == old(self)@.heuristics,
    {
        self.languages.push(lang);
        proof {
            assert(self.languages.deep_view() =~= old(self).languages.deep_view().push(
                self.languages@.last()@,
            ));
        }
    }

    /// Registers one heuristic rule under one gating extension. A rule
    /// equal to one already in the bucket is suppressed.
    pub fn register_heuristic_rule(&mut self, ext: String, rule: HeuristicRule)
        ensures
            final(self)@.languages == old(self)@.languages,
            final(self)@.heuristics == register_rule_spec(old(self)@.heuristics, ext@, rule@),
    {
        let ghost h0 = self@.heuristics;
        let mut i: usize = 0;
        while i < self.heuristics.len()
            invariant
                self == old(self),
                h0 == self@.heuristics,
                i <= self.heuristics.len(),
                forall|j: int| 0 <= j < i ==> h0[j].0 != ext@,
            decreases self.heuristics.len() - i,
        {
            if str_eq(self.heuristics[i].0.as_str(), ext.as_str()) {
                proof {
                    assert(h0[i as int].0 == ext@);
                }
                if bucket_contains(&self.heuristics[i].1, &rule) {
                    proof {
                        lemma_register_rule_at(h0, ext@, rule@, i as int);
                    }
                    return ;
                }
                let mut bucket = copy_rules(&self.heuristics[i].1);
                bucket.push(rule);
                proof {
                    assert(bucket.deep_view() =~~= h0[i as int].1.push(bucket@.last()@));
                }
                self.heuristics.set(i, (ext, bucket));
                proof {
                    lemma_register_rule_at(h0, ext@, rule@, i as int);
                    assert(self.heuristics.deep_view() =~~= h0.update(
                        i as int,
                        (ext@, h0[i as int].1.push(rule@)),
                    ));
                }
                return ;
            }
            i = i + 1;
        }
        proof {
            lemma_register_rule_absent(h0, ext@, rule@);
        }
        self.heuristics.push((ext, vec![rule]));
        proof {
            assert(self.heuristics.deep_view() =~~= h0.push((ext@, seq![rule@])));
        }
    }

    /// Builds a container in one step: every language registered in
    /// order, then every rule registered under each of its gating
    /// extensions, in order. Nothing mutates the result afterwards.
    pub fn build(languages: Vec<Language>, heuristics: Vec<HeuristicRule>) -> (r:
        InMemoryLanguageContainer)
        ensures
            r@.languages == languages.deep_view(),
            r@.heuristics == register_all_rules(
                Seq::<(Seq<char>, Seq<HeuristicRuleV>)>::empty(),
                heuristics.deep_view(),
            ),
    {
        let ghost ld = languages.deep_view();
        let ghost rd = heuristics.deep_view();
        let mut c = InMemoryLanguageContainer::new();
        proof {
            assert(c@.languages =~= ld.take(0));
        }
        let mut i: usize = 0;
        while i < languages.len()
            invariant
                ld == languages.deep_view(),
                ld.len() == languages.len(),
                i <= languages.len(),
                c@.languages == ld.take(i as int),
                c@.heuristics.len() == 0,
            decreases languages.len() - i,
        {
            c.register_language(languages[i].duplicate());
            proof {
                assert(c@.languages =~= ld.take(i + 1));
            }
            i = i + 1;
        }
        proof {
            assert(ld.take(languages.len() as int) =~= ld);
            assert(rd.skip(0) =~= rd);
        }
        let ghost h0 = c@.heuristics;
        proof {
            assert(h0 =~= Seq::<(Seq<char>, Seq<HeuristicRuleV>)>::empty());
        }
        let mut k: usize = 0;
        while k < heuristics.len()
            invariant
                ld == languages.deep_view(),
                rd == heuristics.deep_view(),
                rd.len() == heuristics.len(),
                k <= heuristics.len(),
                c@.languages == ld,
                register_all_rules(h0, rd) == register_all_rules(c@.heuristics, rd.skip(k as int)),
            decreases heuristics.len() - k,
        {
            let rule = &heuristics[k];
            let ghost hk = c@.heuristics;
            let ghost ed = rule.extensions.deep_view();
            proof {
                assert(rd.skip(k as int).first() == rd[k as int]);
                assert(rd.skip(k as int).drop_first() =~= rd.skip(k + 1));
                assert(ed.skip(0) =~= ed);
            }
            let mut j: usize = 0;
            while j < rule.extensions.len()
                invariant
                    rd == heuristics.deep_view(),
                    rd.len() == heuristics.len(),
                    k < heuristics.len(),
                    ld == languages.deep_view(),
                    c@.languages == ld,
                    rule@ == rd[k as int],
                    ed == rule.extensions.deep_view(),
                    ed == rd[k as int].extensions,
                    ed.len() == rule.extensions.len(),
                    j <= rule.extensions.len(),
                    register_rule_under_exts(hk, rd[k as int], ed) == register_rule_under_exts(
                        c@.heuristics,
                        rd[k as int],
                        ed.skip(j as int),
                    ),
                decreases rule.extensions.len() - j,
            {
                proof {
                    assert(ed.skip(j as int).first() == ed[j as int]);
                    assert(ed.skip(j as int).drop_first() =~= ed.skip(j + 1));
                }
                let ghost hbefore = c@.heuristics;
                let key = rule.extensions[j].clone();
                let dup = rule.duplicate();
                proof {
                    assert(key@ == ed[j as int]);
                    assert(dup@ == rd[k as int]);
                }
                c.register_heuristic_rule(key, dup);
                proof {
                    assert(c@.heuristics == register_rule_spec(
                        hbefore,
                        ed[j as int],
                        rd[k as int],
                    ));
                    assert(register_rule_under_exts(hbefore, rd[k as int], ed.skip(j as int))
                        == register_rule_under_exts(c@.heuristics, rd[k as int], ed.skip(j + 1)));
                }
                j = j + 1;
            }
            proof {
                assert(ed.skip(rule.extensions.len() as int).len() == 0);
                assert(register_rule_under_exts(hk, rd[k as int], ed) == c@.heuristics);
                assert(register_all_rules(h0, rd) == register_all_rules(
                    c@.heuristics,
                    rd.skip(k + 1),
                ));
            }
            k = k + 1;
        }
        proof {
            assert(rd.skip(heuristics.len() as int).len() == 0);
        }
        c
    }

    /// How many languages are registered.
    pub fn language_count(&self) -> (r: usize)
        ensures
            r == self@.languages.len(),
    {
        self.languages.len()
    }

    /// The language registered at position `i`.
    pub fn language_at(&self, i: usize) -> (r: &Language)
        requires
            i < self@.languages.len(),
        ensures
            r@ == self@.languages[i as int],
    {
        &self.languages[i]
    }

    /// The first registered language whose name equals `name`,
    /// case-insensitively.
    pub fn get_language_by_name(&self, name: &str) -> (r: Option<&Language>)
        ensures
            r.deep_view() == find_by_name(self@.languages, lower(name@)),
    {
        let ghost ld = self@.languages;
        let mut i: usize = 0;
        while i < self.languages.len()
            invariant
                ld == self@.languages,
                self@.languages.len() == self.languages.len(),
                i <= self.languages.len(),
                forall|j: int| 0 <= j < i ==> lower(ld[j].name) != lower(name@),
            decreases self.languages.len() - i,
        {
            if str_eq_lower(self.languages[i].name.as_str(), name) {
                proof {
                    lemma_find_by_name_at(ld, lower(name@), i as int);
                }
                return Some(&self.languages[i]);
            }
            i = i + 1;
        }
        proof {
            lemma_find_by_name_absent(ld, lower(name@));
        }
        None
    }

    /// All languages claiming the path's lookup extension: the final
    /// extension when there is one, else the whole file name, normalized
    /// either way. `None` when nothing matches.
    pub fn get_languages_by_extension(&self, file: &str) -> (r: Option<Vec<Language>>)
        ensures
            match r {
                Some(v) => v.deep_view() == langs_by_extension_spec(self@.languages, file@)
                    && v.len() > 0,
                None => langs_by_extension_spec(self@.languages, file@).len() == 0,
            },
    {
        let key: String = match extension_of_str(file) {
            Some(e) => normalize_ext(e.as_str()),
            None => {
                let name = base_name_str(file);
                if name.as_str().unicode_len() == 0 {
                    return None;
                }
                normalize_ext(name.as_str())
            },
        };
        let v = self.filter_by_field(MatchField::Extensions, key.as_str());
        if v.len() == 0 {
            None
        } else {
            Some(v)
        }
    }

    /// All languages claiming the path's final segment as an exact
    /// filename, case-sensitively. `None` when nothing matches.
    pub fn get_languages_by_filename(&self, file: &str) -> (r: Option<Vec<Language>>)
        ensures
            match r {
                Some(v) => v.deep_view() == langs_matching(
                    self@.languages,
                    MatchField::Filenames,
                    base_name(file@),
                ) && v.len() > 0,
                None => langs_matching(
                    self@.languages,
                    MatchField::Filenames,
                    base_name(file@),
                ).len() == 0,
            },
    {
        let name = base_name_str(file);
        let v = self.filter_by_field(MatchField::Filenames, name.as_str());
        if v.len() == 0 {
            None
        } else {
            Some(v)
        }
    }

    /// All languages claiming the given interpreter. `None` when nothing
    /// matches.
    pub fn get_languages_by_interpreter(&self, interpreter: &str) -> (r: Option<Vec<Language>>)
        ensures
            match r {
                Some(v) => v.deep_view() == langs_matching(
                    self@.languages,
                    MatchField::Interpreters,
                    interpreter@,
                ) && v.len() > 0,
                None => langs_matching(
                    self@.languages,
                    MatchField::Interpreters,
                    interpreter@,
                ).len() == 0,
            },
    {
        let v = self.filter_by_field(MatchField::Interpreters, interpreter);
        if v.len() == 0 {
            None
        } else {
            Some(v)
        }
    }

    /// The heuristic rules gated on the path's final extension; no
    /// filename fallback.
    pub fn get_heuristics_by_extension(&self, file: &str) -> (r: Option<Vec<HeuristicRule>>)
        ensures
            r.deep_view() == heuristics_by_extension_spec(self@, file@),
    {
        match extension_of_str(file) {
            Some(e) => {
                let key = normalize_ext(e.as_str());
                let ghost h0 = self@.heuristics;
                let mut i: usize = 0;
                while i < self.heuristics.len()
                    invariant
                        h0 == self@.heuristics,
                        self@.heuristics.len() == self.heuristics.len(),
                        i <= self.heuristics.len(),
                        extension_of(file@) is Some,
                        key@ == norm_ext(extension_of(file@).unwrap()),
                        forall|j: int| 0 <= j < i ==> h0[j].0 != key@,
                    decreases self.heuristics.len() - i,
                {
                    if str_eq(self.heuristics[i].0.as_str(), key.as_str()) {
                        proof {
                            lemma_bucket_at(h0, key@, i as int);
                        }
                        let rules = copy_rules(&self.heuristics[i].1);
                        proof {
                            assert(rules.deep_view() == h0[i as int].1);
                            assert(heuristics_by_extension_spec(self@, file@) == Some(
                                h0[i as int].1,
                            ));
                        }
                        return Some(rules);
                    }
                    i = i + 1;
                }
                proof {
                    lemma_bucket_absent(h0, key@);
                }
                None
            },
            None => None,
        }
    }

    /// Filters the registered languages by one matching field.
    fn filter_by_field(&self, f: MatchField, key: &str) -> (r: Vec<Language>)
        ensures
            r.deep_view() == langs_matching(self@.languages, f, key@),
    {
        let ghost ld = self@.languages;
        let mut out: Vec<Language> = Vec::new();
        proof {
            assert(out.deep_view() =~~= langs_matching(ld.take(0), f, key@));
        }
        let mut i: usize = 0;
        while i < self.languages.len()
            invariant
                ld == self@.languages,
                self@.languages.len() == self.languages.len(),
                i <= self.languages.len(),
                out.deep_view() == langs_matching(ld.take(i as int), f, key@),
            decreases self.languages.len() - i,
        {
            let ghost prev = out.deep_view();
            let lang = &self.languages[i];
            let field: &Vec<String> = match f {
                MatchField::Extensions => &lang.extensions,
                MatchField::Filenames => &lang.filenames,
                MatchField::Interpreters => &lang.interpreters,
            };
            proof {
                assert(field.deep_view() == field_of(ld[i as int], f));
            }
            if vec_contains_str(field, key) {
                out.push(lang.duplicate());
                proof {
                    assert(out.deep_view() =~~= prev.push(ld[i as int]));
                }
            }
            proof {
                assert(ld.take(i + 1).drop_last() =~= ld.take(i as int));
                assert(ld.take(i + 1).last() == ld[i as int]);
                assert(langs_matching(ld.take(i + 1), f, key@) == if field_of(
                    ld[i as int],
                    f,
                ).contains(key@) {
                    langs_matching(ld.take(i as int), f, key@).push(ld[i as int])
                } else {
                    langs_matching(ld.take(i as int), f, key@)
                });
            }
            i = i + 1;
        }
        proof {
            assert(ld.take(ld.len() as int) =~= ld);
        }
        out
    }

    /// Whether every registered heuristic rule names a language that
    /// `get_language_by_name` resolves.
    pub fn check_heuristics_resolve(&self) -> (r: bool)
        ensures
            r == heuristics_resolvable(self@),
    {
        let ghost h0 = self@.heuristics;
        let mut b: usize = 0;
        while b < self.heuristics.len()
            invariant
                h0 == self@.heuristics,
                self@.heuristics.len() == self.heuristics.len(),
                b <= self.heuristics.len(),
                forall|x: int, k: int|
                    0 <= x < b && 0 <= k < h0[x].1.len() ==> find_by_name(
                        self@.languages,
                        lower((#[trigger] h0[x].1[k]).language),
                    ) is Some,
            decreases self.heuristics.len() - b,
        {
            let bucket = &self.heuristics[b].1;
            let mut k: usize = 0;
            while k < bucket.len()
                invariant
                    h0 == self@.heuristics,
                    self@.heuristics.len() == self.heuristics.len(),
                    b < self.heuristics.len(),
                    bucket.deep_view() == h0[b as int].1,
                    k <= bucket.len(),
                    bucket.len() == h0[b as int].1.len(),
                    forall|k2: int|
                        0 <= k2 < k ==> find_by_name(
                            self@.languages,
                            lower((#[trigger] h0[b as int].1[k2]).language),
                        ) is Some,
                decreases bucket.len() - k,
            {
                let found = self.get_language_by_name(bucket[k].language.as_str());
                if found.is_none() {
                    proof {
                        assert(h0[b as int].1[k as int].language == bucket.deep_view()[k as int].language);
                    }
                    return false;
                }
                k = k + 1;
            }
            b = b + 1;
        }
        true
    }
}

/// Which of a language's set-valued fields a query matches against.
#[derive(Debug, Clone, Copy, PartialEq, Eq, Structural)]
pub enum MatchField {
    Extensions,
    Filenames,
    Interpreters,
}

/// The selected field of a language record.
pub open spec fn field_of(l: LanguageV, f: MatchField) -> Seq<Seq<char>> {
    match f {
        MatchField::Extensions => l.extensions,
        MatchField::Filenames => l.filenames,
        MatchField::Interpreters => l.interpreters,
    }
}

/// The registered languages whose selected field holds `key`, in
/// registration order.
pub open spec fn langs_matching(
    langs: Seq<LanguageV>,
    f: MatchField,
    key: Seq<char>,
) -> Seq<LanguageV>
    decreases langs.len(),
{
    if langs.len() == 0 {
        Seq::empty()
    } else {
        let rest = langs_matching(langs.drop_last(), f, key);
        if field_of(langs.last(), f).contains(key) {
            rest.push(langs.last())
        } else {
            rest
        }
    }
}

/// The lookup key that extension queries use: the path's final extension,
/// or the whole file name when there is none, normalized.
pub open spec fn ext_key_of(path: Seq<char>) -> Option<Seq<char>> {
    match extension_of(path) {
        Some(e) => Some(norm_ext(e)),
        None => if base_name(path).len() > 0 {
            Some(norm_ext(base_name(path)))
        } else {
            None
        },
    }
}

/// What an extension query returns.
pub open spec fn langs_by_extension_spec(langs: Seq<LanguageV>, path: Seq<char>) -> Seq<LanguageV> {
    match ext_key_of(path) {
        Some(k) => langs_matching(langs, MatchField::Extensions, k),
        None => Seq::empty(),
    }
}

/// What a heuristics query returns: the bucket under the path's final
/// extension, or nothing when the path has no extension.
pub open spec fn heuristics_by_extension_spec(c: ContainerV, path: Seq<char>) -> Option<
    Seq<HeuristicRuleV>,
> {
    match extension_of(path) {
        Some(e) => bucket_of(c.heuristics, norm_ext(e)),
        None => None,
    }
}

/// The first registered language whose name lower-cases to `lname`.
pub open spec fn find_by_name(langs: Seq<LanguageV>, lname: Seq<char>) -> Option<LanguageV>
    decreases langs.len(),
{
    if langs.len() == 0 {
        None
    } else if lower(langs.first().name) == lname {
        Some(langs.first())
    } else {
        find_by_name(langs.drop_first(), lname)
    }
}

pub proof fn lemma_find_by_name_at(langs: Seq<LanguageV>, lname: Seq<char>, i: int)
    requires
        0 <= i < langs.len(),
        lower(langs[i].name) == lname,
        forall|j: int| 0 <= j < i ==> lower(langs[j].name) != lname,
    ensures
        find_by_name(langs, lname) == Some(langs[i]),
    decreases i,
{
    if i == 0 {
    } else {
        let t = langs.drop_first();
        assert(t[i - 1] == langs[i]);
        assert forall|j: int| 0 <= j < i - 1 implies lower(t[j].name) != lname by {
            assert(t[j] == langs[j + 1]);
        }
        lemma_find_by_name_at(t, lname, i - 1);
    }
}

pub proof fn lemma_find_by_name_absent(langs: Seq<LanguageV>, lname: Seq<char>)
    requires
        forall|j: int| 0 <= j < langs.len() ==> lower(langs[j].name) != lname,
    ensures
        find_by_name(langs, lname) is None,
    decreases langs.len(),
{
    if langs.len() == 0 {
    } else {
        let t = langs.drop_first();
        assert forall|j: int| 0 <= j < t.len() implies lower(t[j].name) != lname by {
            assert(t[j] == langs[j + 1]);
        }
        lemma_find_by_name_absent(t, lname);
    }
}

/// Every heuristic rule in the container names a language that resolves,
/// case-insensitively, through `get_language_by_name`.
pub open spec fn heuristics_resolvable(c: ContainerV) -> bool {
    forall|b: int, k: int|
        0 <= b < c.heuristics.len() && 0 <= k < c.heuristics[b].1.len() ==> find_by_name(
            c.languages,
            lower((#[trigger] c.heuristics[b].1[k]).language),
        ) is Some
}

/// A matching entry is kept: whenever the selected field of a registered
/// language holds `key`, that language appears among the query's results.
pub proof fn lemma_langs_matching_contains(
    langs: Seq<LanguageV>,
    f: MatchField,
    key: Seq<char>,
    i: int,
)
    requires
        0 <= i < langs.len(),
        field_of(langs[i], f).contains(key),
    ensures
        langs_matching(langs, f, key).contains(langs[i]),
    decreases langs.len(),
{
    let r = langs_matching(langs, f, key);
    if i == langs.len() - 1 {
        let rest = langs_matching(langs.drop_last(), f, key);
        assert(r == rest.push(langs.last()));
        assert(r[rest.len() as int] == langs[i]);
    } else {
        lemma_langs_matching_contains(langs.drop_last(), f, key, i);
        let rest = langs_matching(langs.drop_last(), f, key);
        let w = choose|w: int| 0 <= w < rest.len() && rest[w] == langs.drop_last()[i];
        assert(langs.drop_last()[i] == langs[i]);
        if field_of(langs.last(), f).contains(key) {
            assert(r[w] == langs[i]);
        } else {
            assert(r[w] == langs[i]);
        }
    }
}

/// Every extension a language is registered under finds it again: looking
/// up `x.<ext>` returns a list that holds the language. The extension must
/// be stored normalized and be a single plain segment, without `.` or `/`.
pub proof fn lemma_extension_lookup_complete(c: ContainerV, i: int, e: Seq<char>)
    requires
        0 <= i < c.languages.len(),
        c.languages[i].extensions.contains(e),
        wf_ext(e),
        !e.contains('.'),
        !e.contains('/'),
    ensures
        langs_by_extension_spec(c.languages, seq!['x', '.'] + e).contains(c.languages[i]),
{
    let path = seq!['x', '.'] + e;
    assert forall|j: int| 0 <= j < path.len() implies path[j] != '/' by {
        if j >= 2 {
            assert(path[j] == e[j - 2]);
        }
    }
    assert(!path.contains('/'));
    crate::text::lemma_base_name_no_slash(path);
    assert(base_name(path) == path);
    assert(path.drop_first()[0] == '.');
    assert(path.drop_first().contains('.'));
    assert forall|j: int| 1 < j < path.len() implies path[j] != '.' by {
        assert(path[j] == e[j - 2]);
    }
    assert(path[1] == '.');
    crate::text::lemma_suffix_after_last_at(path, '.', 1);
    assert(path.skip(2) =~= e);
    assert(extension_of(path) == Some(e));
    lemma_norm_ext_id(e);
    lemma_langs_matching_contains(c.languages, MatchField::Extensions, e, i);
}

/// Every filename a language is registered under finds it again: the
/// lookup keys on the path's final segment, so a registered filename —
/// which holds no separator — looks itself up, from any directory.
pub proof fn lemma_filename_lookup_complete(c: ContainerV, i: int, n: Seq<char>)
    requires
        0 <= i < c.languages.len(),
        c.languages[i].filenames.contains(n),
        !n.contains('/'),
    ensures
        langs_matching(c.languages, MatchField::Filenames, base_name(n)).contains(c.languages[i]),
{
    crate::text::lemma_base_name_no_slash(n);
    lemma_langs_matching_contains(c.languages, MatchField::Filenames, n, i);
}

/// In a container whose rules all resolve, every rule's language lookup
/// succeeds.
pub proof fn lemma_rule_language_resolves(c: ContainerV, b: int, k: int)
    requires
        heuristics_resolvable(c),
        0 <= b < c.heuristics.len(),
        0 <= k < c.heuristics[b].1.len(),
    ensures
        find_by_name(c.languages, lower(c.heuristics[b].1[k].language)) is Some,
{
}

} // verus!
