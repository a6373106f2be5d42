//! The build-time table generator: renders loaded definitions as Rust
//! source tables. Fetching the inputs and writing the output files is
//! the caller's work; everything here maps document text to table text.

use vstd::prelude::*;
use vstd::string::StrSliceExecFns;
use vstd::string::StringExecFns;

use crate::error::LinguistError;
use crate::github::{
    filter_supported, heuristics_doc_of, languages_doc_of, load_github_documentation,
    load_github_linguist_heuristics, load_github_linguist_languages, load_github_vendors,
    string_list_of_doc,
};
use crate::resolver::{HeuristicRule, HeuristicRuleV, Language, LanguageV, Scope};
use crate::text::{join_with, join_with_str};

verus! {

/// A quoted string: the text between two double quotes.
pub open spec fn quoted(s: Seq<char>) -> Seq<char> {
    "\""@ + s + "\""@
}

/// Quotes one string.
fn quote_str(s: &str) -> (r: String)
    ensures
        r@ == quoted(s@),
{
    let mut q = String::new();
    q.append("\"");
    q.append(s);
    q.append("\"");
    proof {
        assert(q@ =~= quoted(s@));
    }
    q
}

/// Each string quoted, in order.
pub open spec fn quoted_all(items: Seq<Seq<char>>) -> Seq<Seq<char>> {
    Seq::new(items.len(), |i: int| quoted(items[i]))
}

/// The quoted strings joined with `, `.
pub open spec fn quoted_join(items: Seq<Seq<char>>) -> Seq<char> {
    join_with(quoted_all(items), ", "@)
}

/// Renders a `, `-separated list of quoted strings.
fn quoted_join_str(items: &Vec<String>) -> (r: String)
    ensures
        r@ == quoted_join(items.deep_view()),
{
    let mut qs: Vec<String> = Vec::new();
    let mut i: usize = 0;
    while i < items.len()
        invariant
            i <= items.len(),
            qs.deep_view().len() == i,
            forall|j: int| 0 <= j < i ==> qs.deep_view()[j] == quoted(items.deep_view()[j]),
        decreases items.len() - i,
    {
        let ghost prev = qs.deep_view();
        let q = quote_str(items[i].as_str());
        qs.push(q);
        proof {
            assert(qs.deep_view() =~~= prev.push(qs@.last()@));
        }
        i = i + 1;
    }
    proof {
        assert(qs.deep_view() =~~= quoted_all(items.deep_view()));
    }
    join_with_str(&qs, ", ")
}

/// The `parent` field of a rendered language row.
pub open spec fn parent_part(p: Option<Seq<char>>) -> Seq<char> {
    match p {
        Some(s) => "parent: Some(\""@ + s + "\"), "@,
        None => "parent: None, "@,
    }
}

/// One optional quoted-list field of a rendered language row.
pub open spec fn list_part(label: Seq<char>, items: Seq<Seq<char>>) -> Seq<char> {
    if items.len() > 0 {
        label + ": Some(&["@ + quoted_join(items) + "]), "@
    } else {
        label + ": None, "@
    }
}

/// The `color` field of a rendered language row.
pub open spec fn color_part(c: Option<Seq<char>>) -> Seq<char> {
    match c {
        Some(s) => "color: Some(\""@ + s + "\") "@,
        None => "color: None "@,
    }
}

/// The embedded-table row a language definition renders to.
pub open spec fn write_language_spec(l: LanguageV) -> Seq<char> {
    "&StaticLanguage {"@ + parent_part(l.parent) + "name: \""@ + l.name + "\", "@ + list_part(
        "aliases"@,
        l.aliases,
    ) + "scope: \""@ + Scope::scope_name(l.scope) + "\", "@ + list_part("extensions"@, l.extensions)
        + list_part("filenames"@, l.filenames) + list_part("interpreters"@, l.interpreters)
        + color_part(l.color) + "}"@
}

/// Appends one optional quoted-list field.
fn append_list_part(acc: &mut String, label: &str, items: &Vec<String>)
    ensures
        final(acc)@ == old(acc)@ + list_part(label@, items.deep_view()),
{
    let ghost base = acc@;
    if items.len() > 0 {
        acc.append(label);
        acc.append(": Some(&[");
        let joined = quoted_join_str(items);
        acc.append(joined.as_str());
        acc.append("]), ");
        proof {
            assert(acc@ =~= base + list_part(label@, items.deep_view()));
        }
    } else {
        acc.append(label);
        acc.append(": None, ");
        proof {
            assert(acc@ =~= base + list_part(label@, items.deep_view()));
        }
    }
}

/// Renders one language definition as an embedded-table row.
pub fn write_language_definition(lang: &Language) -> (r: String)
    ensures
        r@ == write_language_spec(lang@),
{
    let mut acc = String::new();
    acc.append("&StaticLanguage {");
    match &lang.parent {
        Some(p) => {
            acc.append("parent: Some(\"");
            acc.append(p.as_str());
            acc.append("\"), ");
        },
        None => {
            acc.append("parent: None, ");
        },
    }
    proof {
        assert(acc@ =~= "&StaticLanguage {"@ + parent_part(lang@.parent));
    }
    let ghost p1 = acc@;
    acc.append("name: \"");
    acc.append(lang.name.as_str());
    acc.append("\", ");
    proof {
        assert(acc@ =~= p1 + "name: \""@ + lang@.name + "\", "@);
    }
    append_list_part(&mut acc, "aliases", &lang.aliases);
    let ghost p2 = acc@;
    let scope_name = lang.scope.as_str();
    acc.append("scope: \"");
    acc.append(scope_name);
    acc.append("\", ");
    proof {
        assert(acc@ =~= p2 + "scope: \""@ + Scope::scope_name(lang@.scope) + "\", "@);
    }
    append_list_part(&mut acc, "extensions", &lang.extensions);
    append_list_part(&mut acc, "filenames", &lang.filenames);
    append_list_part(&mut acc, "interpreters", &lang.interpreters);
    let ghost p3 = acc@;
    match &lang.color {
        Some(c) => {
            acc.append("color: Some(\"");
            acc.append(c.as_str());
            acc.append("\") ");
        },
        None => {
            acc.append("color: None ");
        },
    }
    acc.append("}");
    proof {
        assert(acc@ =~= p3 + color_part(lang@.color) + "}"@);
        assert(acc@ =~= write_language_spec(lang@));
    }
    acc
}

/// A pattern with `\` and `"` escaped for a Rust string literal.
pub open spec fn escaped(s: Seq<char>) -> Seq<char>
    decreases s.len(),
{
    if s.len() == 0 {
        s
    } else {
        (if s[0] == '\\' {
            seq!['\\', '\\']
        } else if s[0] == '"' {
            seq!['\\', '"']
        } else {
            seq![s[0]]
        }) + escaped(s.drop_first())
    }
}

/// Escapes a pattern for a Rust string literal.
fn escape_str(s: &str) -> (r: String)
    ensures
        r@ == escaped(s@),
{
    let n: usize = s.unicode_len();
    let mut acc = String::new();
    proof {
        assert(s@.skip(0) =~= s@);
        assert(acc@ + escaped(s@) =~= escaped(s@));
    }
    let mut i: usize = 0;
    while i < n
        invariant
            n == s@.len(),
            i <= n,
            acc@ + escaped(s@.skip(i as int)) == escaped(s@),
        decreases n - i,
    {
        let ghost prev = acc@;
        let c = s.get_char(i);
        proof {
            assert(s@.skip(i as int)[0] == s@[i as int]);
            assert(s@.skip(i as int).drop_first() =~= s@.skip(i + 1));
        }
        if c == '\\' {
            acc.append("\\\\");
            proof {
                reveal_strlit("\\\\");
                assert(acc@ =~= prev + seq!['\\', '\\']);
            }
        } else if c == '"' {
            acc.append("\\\"");
            proof {
                reveal_strlit("\\\"");
                assert(acc@ =~= prev + seq!['\\', '"']);
            }
        } else {
            crate::text::push_char(&mut acc, c);
            proof {
                assert(acc@ =~= prev + seq![s@[i as int]]);
            }
        }
        proof {
            assert(acc@ + escaped(s@.skip(i + 1)) =~= prev + escaped(s@.skip(i as int)));
        }
        i = i + 1;
    }
    proof {
        assert(escaped(s@.skip(n as int)) =~= Seq::<char>::empty());
        assert(acc@ =~= acc@ + escaped(s@.skip(n as int)));
    }
    acc
}

/// One member of a rendered `vec![...]` of strings.
pub open spec fn owned_string_lit(s: Seq<char>) -> Seq<char> {
    "\""@ + s + "\".to_string()"@
}

/// Each pattern escaped and rendered as an owned-string literal.
pub open spec fn pattern_lits(ps: Seq<Seq<char>>) -> Seq<Seq<char>> {
    Seq::new(ps.len(), |i: int| owned_string_lit(escaped(ps[i])))
}

/// Each extension rendered as an owned-string literal.
pub open spec fn ext_lits(es: Seq<Seq<char>>) -> Seq<Seq<char>> {
    Seq::new(es.len(), |i: int| owned_string_lit(es[i]))
}

/// The `vec![...]` field of a rendered heuristic row.
pub open spec fn vec_part(label: Seq<char>, lits: Seq<Seq<char>>, tail: Seq<char>) -> Seq<char> {
    if lits.len() > 0 {
        label + ": vec!["@ + join_with(lits, ", "@) + "]"@ + tail
    } else {
        label + ": vec![]"@ + tail
    }
}

/// The table row a heuristic rule renders to.
pub open spec fn write_heuristic_spec(r: HeuristicRuleV) -> Seq<char> {
    "HeuristicRule {"@ + "language: \""@ + r.language + "\".to_string(), "@ + vec_part(
        "extensions"@,
        ext_lits(r.extensions),
        ", "@,
    ) + vec_part("patterns"@, pattern_lits(r.patterns), " "@) + "}"@
}

/// Renders one owned-string literal.
fn owned_string_lit_str(s: &str) -> (r: String)
    ensures
        r@ == owned_string_lit(s@),
{
    let mut q = String::new();
    q.append("\"");
    q.append(s);
    q.append("\".to_string()");
    proof {
        assert(q@ =~= owned_string_lit(s@));
    }
    q
}

/// Appends one rendered `vec![...]` field.
fn append_vec_part(acc: &mut String, label: &str, lits: &Vec<String>, tail: &str)
    ensures
        final(acc)@ == old(acc)@ + vec_part(label@, lits.deep_view(), tail@),
{
    let ghost base = acc@;
    if lits.len() > 0 {
        acc.append(label);
        acc.append(": vec![");
        let joined = join_with_str(lits, ", ");
        acc.append(joined.as_str());
        acc.append("]");
        acc.append(tail);
        proof {
            assert(acc@ =~= base + vec_part(label@, lits.deep_view(), tail@));
        }
    } else {
        acc.append(label);
        acc.append(": vec![]");
        acc.append(tail);
        proof {
            assert(acc@ =~= base + vec_part(label@, lits.deep_view(), tail@));
        }
    }
}

/// Renders one heuristic rule as a table row.
pub fn write_heuristic_definition(rule: &HeuristicRule) -> (r: String)
    ensures
        r@ == write_heuristic_spec(rule@),
{
    let mut acc = String::new();
    acc.append("HeuristicRule {");
    acc.append("language: \"");
    acc.append(rule.language.as_str());
    acc.append("\".to_string(), ");
    proof {
        assert(acc@ =~= "HeuristicRule {"@ + "language: \""@ + rule@.language
            + "\".to_string(), "@);
    }
    let mut elits: Vec<String> = Vec::new();
    let mut i: usize = 0;
    while i < rule.extensions.len()
        invariant
            i <= rule.extensions.len(),
            elits.deep_view().len() == i,
            forall|j: int|
                0 <= j < i ==> elits.deep_view()[j] == owned_string_lit(
                    rule.extensions.deep_view()[j],
                ),
        decreases rule.extensions.len() - i,
    {
        let ghost prev = elits.deep_view();
        let lit = owned_string_lit_str(rule.extensions[i].as_str());
        elits.push(lit);
        proof {
            assert(elits.deep_view() =~~= prev.push(elits@.last()@));
        }
        i = i + 1;
    }
    proof {
        assert(elits.deep_view() =~~= ext_lits(rule@.extensions));
    }
    append_vec_part(&mut acc, "extensions", &elits, ", ");
    let mut plits: Vec<String> = Vec::new();
    let mut i: usize = 0;
    while i < rule.patterns.len()
        invariant
            i <= rule.patterns.len(),
            plits.deep_view().len() == i,
            forall|j: int|
                0 <= j < i ==> plits.deep_view()[j] == owned_string_lit(
                    escaped(rule.patterns.deep_view()[j]),
                ),
        decreases rule.patterns.len() - i,
    {
        let ghost prev = plits.deep_view();
        let esc = escape_str(rule.patterns[i].as_str());
        let lit = owned_string_lit_str(esc.as_str());
        plits.push(lit);
        proof {
            assert(plits.deep_view() =~~= prev.push(plits@.last()@));
        }
        i = i + 1;
    }
    proof {
        assert(plits.deep_view() =~~= pattern_lits(rule@.patterns));
    }
    append_vec_part(&mut acc, "patterns", &plits, " ");
    let ghost p1 = acc@;
    acc.append("}");
    proof {
        assert(acc@ =~= p1 + "}"@);
        assert(acc@ =~= write_heuristic_spec(rule@));
    }
    acc
}

/// The rows of a generated table: each entry indented and terminated.
pub open spec fn table_rows(entries: Seq<Seq<char>>) -> Seq<char>
    decreases entries.len(),
{
    if entries.len() == 0 {
        Seq::empty()
    } else {
        table_rows(entries.drop_last()) + "    "@ + entries.last() + ",\n"@
    }
}

/// Appends every rendered row.
fn append_table_rows(acc: &mut String, entries: &Vec<String>)
    ensures
        final(acc)@ == old(acc)@ + table_rows(entries.deep_view()),
{
    let ghost base = acc@;
    let ghost ed = entries.deep_view();
    proof {
        assert(base + table_rows(ed.take(0)) =~= base);
    }
    let mut i: usize = 0;
    while i < entries.len()
        invariant
            ed == entries.deep_view(),
            ed.len() == entries.len(),
            i <= entries.len(),
            acc@ == base + table_rows(ed.take(i as int)),
        decreases entries.len() - i,
    {
        let ghost prev = acc@;
        acc.append("    ");
        acc.append(entries[i].as_str());
        acc.append(",\n");
        proof {
            assert(ed.take(i + 1).drop_last() =~= ed.take(i as int));
            assert(ed.take(i + 1).last() == ed[i as int]);
            assert(acc@ =~= base + table_rows(ed.take(i + 1)));
        }
        i = i + 1;
    }
    proof {
        assert(ed.take(entries.len() as int) =~= ed);
    }
}

/// The generated languages table: a static of embedded rows.
pub open spec fn languages_table_spec(langs: Seq<LanguageV>) -> Seq<char> {
    "use linguist::embedded::StaticLanguage;\n\npub static LANGUAGES: &[&StaticLanguage] = &[\n"@
        + table_rows(Seq::new(langs.len(), |i: int| write_language_spec(langs[i]))) + "];\n"@
}

/// Renders the languages table.
pub fn languages_table_text(langs: &Vec<Language>) -> (r: String)
    ensures
        r@ == languages_table_spec(langs.deep_view()),
{
    let mut rows: Vec<String> = Vec::new();
    let mut i: usize = 0;
    while i < langs.len()
        invariant
            i <= langs.len(),
            rows.deep_view().len() == i,
            forall|j: int|
                0 <= j < i ==> rows.deep_view()[j] == write_language_spec(langs.deep_view()[j]),
        decreases langs.len() - i,
    {
        let ghost prev = rows.deep_view();
        let row = write_language_definition(&langs[i]);
        rows.push(row);
        proof {
            assert(rows.deep_view() =~~= prev.push(rows@.last()@));
        }
        i = i + 1;
    }
    let mut acc = String::new();
    acc.append(
        "use linguist::embedded::StaticLanguage;\n\npub static LANGUAGES: &[&StaticLanguage] = &[\n",
    );
    proof {
        assert(acc@
            =~= "use linguist::embedded::StaticLanguage;\n\npub static LANGUAGES: &[&StaticLanguage] = &[\n"@);
        assert(rows.deep_view() =~~= Seq::new(
            langs.deep_view().len(),
            |i: int| write_language_spec(langs.deep_view()[i]),
        ));
    }
    append_table_rows(&mut acc, &rows);
    acc.append("];\n");
    proof {
        assert(acc@ =~= languages_table_spec(langs.deep_view()));
    }
    acc
}

/// The generated heuristics table: a function returning the flat rules.
pub open spec fn heuristics_table_spec(rules: Seq<HeuristicRuleV>) -> Seq<char> {
    "use linguist::resolver::HeuristicRule;\n\npub fn heuristics() -> Vec<HeuristicRule> {\n    let langs: Vec<HeuristicRule> = vec![\n"@
        + table_rows(Seq::new(rules.len(), |i: int| write_heuristic_spec(rules[i])))
        + "    ];\n    langs\n}\n"@
}

/// Renders the heuristics table.
pub fn heuristics_table_text(rules: &Vec<HeuristicRule>) -> (r: String)
    ensures
        r@ == heuristics_table_spec(rules.deep_view()),
{
    let mut rows: Vec<String> = Vec::new();
    let mut i: usize = 0;
    while i < rules.len()
        invariant
            i <= rules.len(),
            rows.deep_view().len() == i,
            forall|j: int|
                0 <= j < i ==> rows.deep_view()[j] == write_heuristic_spec(rules.deep_view()[j]),
        decreases rules.len() - i,
    {
        let ghost prev = rows.deep_view();
        let row = write_heuristic_definition(&rules[i]);
        rows.push(row);
        proof {
            assert(rows.deep_view() =~~= prev.push(rows@.last()@));
        }
        i = i + 1;
    }
    let mut acc = String::new();
    acc.append(
        "use linguist::resolver::HeuristicRule;\n\npub fn heuristics() -> Vec<HeuristicRule> {\n    let langs: Vec<HeuristicRule> = vec![\n",
    );
    proof {
        assert(acc@
            =~= "use linguist::resolver::HeuristicRule;\n\npub fn heuristics() -> Vec<HeuristicRule> {\n    let langs: Vec<HeuristicRule> = vec![\n"@);
        assert(rows.deep_view() =~~= Seq::new(
            rules.deep_view().len(),
            |i: int| write_heuristic_spec(rules.deep_view()[i]),
        ));
    }
    append_table_rows(&mut acc, &rows);
    acc.append("    ];\n    langs\n}\n");
    proof {
        assert(acc@ =~= heuristics_table_spec(rules.deep_view()));
    }
    acc
}

/// One row of a generated pattern table: a raw string literal.
pub open spec fn raw_lit(p: Seq<char>) -> Seq<char> {
    "r\""@ + p + "\""@
}

/// The generated table of path patterns under the given static name.
pub open spec fn patterns_table_spec(name: Seq<char>, ps: Seq<Seq<char>>) -> Seq<char> {
    "pub static "@ + name + ": &[&str] = &[\n"@ + table_rows(
        Seq::new(ps.len(), |i: int| raw_lit(ps[i])),
    ) + "];\n"@
}

/// Renders a pattern table under the given static name.
pub fn patterns_table_text(name: &str, ps: &Vec<String>) -> (r: String)
    ensures
        r@ == patterns_table_spec(name@, ps.deep_view()),
{
    let mut rows: Vec<String> = Vec::new();
    let mut i: usize = 0;
    while i < ps.len()
        invariant
            i <= ps.len(),
            rows.deep_view().len() == i,
            forall|j: int| 0 <= j < i ==> rows.deep_view()[j] == raw_lit(ps.deep_view()[j]),
        decreases ps.len() - i,
    {
        let ghost prev = rows.deep_view();
        let mut row = String::new();
        row.append("r\"");
        row.append(ps[i].as_str());
        row.append("\"");
        proof {
            assert(row@ =~= raw_lit(ps.deep_view()[i as int]));
        }
        rows.push(row);
        proof {
            assert(rows.deep_view() =~~= prev.push(rows@.last()@));
        }
        i = i + 1;
    }
    let mut acc = String::new();
    acc.append("pub static ");
    acc.append(name);
    acc.append(": &[&str] = &[\n");
    proof {
        assert(acc@ =~= "pub static "@ + name@ + ": &[&str] = &[\n"@);
        assert(rows.deep_view() =~~= Seq::new(
            ps.deep_view().len(),
            |i: int| raw_lit(ps.deep_view()[i]),
        ));
    }
    append_table_rows(&mut acc, &rows);
    acc.append("];\n");
    proof {
        assert(acc@ =~= patterns_table_spec(name@, ps.deep_view()));
    }
    acc
}

/// Where a definition's source document lives: a local file, or a URL
/// that the caller downloads.
#[derive(Debug, Clone, PartialEq, Eq)]
pub enum Location {
    Path(String),
    URL(String),
}

/// Which table a definition generates.
#[derive(Debug, Clone, Copy, PartialEq, Eq, Structural)]
pub enum Kind {
    Languages,
    Heuristics,
    Vendors,
    Documentation,
}

/// The mathematical shadow of a [`Location`].
pub ghost enum LocationV {
    Path(Seq<char>),
    URL(Seq<char>),
}

impl View for Location {
    type V = LocationV;

    open spec fn view(&self) -> LocationV {
        match self {
            Location::Path(p) => LocationV::Path(p@),
            Location::URL(u) => LocationV::URL(u@),
        }
    }
}

impl DeepView for Location {
    type V = LocationV;

    open spec fn deep_view(&self) -> LocationV {
        self.view()
    }
}

/// The mathematical shadow of a [`Definition`].
pub ghost struct DefinitionV {
    pub name: Seq<char>,
    pub location: LocationV,
    pub kind: Kind,
}

/// One artifact to generate: its output name, where its source document
/// lives, and which table it becomes.
#[derive(Debug, Clone, PartialEq, Eq)]
pub struct Definition {
    pub name: String,
    pub location: Location,
    pub kind: Kind,
}

impl View for Definition {
    type V = DefinitionV;

    open spec fn view(&self) -> DefinitionV {
        DefinitionV { name: self.name@, location: self.location@, kind: self.kind }
    }
}

impl DeepView for Definition {
    type V = DefinitionV;

    open spec fn deep_view(&self) -> DefinitionV {
        self.view()
    }
}

/// The mathematical shadow of a [`Config`].
pub ghost struct ConfigV {
    pub out_path: Seq<char>,
    pub definitions: Seq<DefinitionV>,
}

/// Configures a generation run: the output directory and the
/// definitions to generate.
#[derive(Debug)]
pub struct Config {
    out_path: String,
    definitions: Vec<Definition>,
}

impl View for Config {
    type V = ConfigV;

    closed spec fn view(&self) -> ConfigV {
        ConfigV { out_path: self.out_path@, definitions: self.definitions.deep_view() }
    }
}

impl Default for Config {
    /// A configuration with no output path and nothing to generate.
    fn default() -> (r: Config)
        ensures
            r@.out_path.len() == 0,
            r@.definitions.len() == 0,
    {
        Config { out_path: String::new(), definitions: Vec::new() }
    }
}

/// Whether a generated text is right for its table kind and source
/// document: pattern tables are pinned to the document's parsed list;
/// language and heuristic tables render some loaded, normalized model.
pub open spec fn generated_ok(kind: Kind, input: Seq<char>, text: Seq<char>) -> bool {
    match kind {
        Kind::Languages => languages_doc_of(input) matches Some(defs) && text
            == languages_table_spec(Seq::new(defs.len(), |i: int| crate::github::language_of_def(defs[i]))),
        Kind::Heuristics => heuristics_doc_of(input) matches Some(doc) && text
            == heuristics_table_spec(crate::github::expand_heuristics(doc.0, doc.1)),
        Kind::Vendors => string_list_of_doc(input) matches Some(l) && text == patterns_table_spec(
            "VENDORS"@,
            filter_supported(l),
        ),
        Kind::Documentation => string_list_of_doc(input) matches Some(l) && text
            == patterns_table_spec("DOCUMENTATION"@, filter_supported(l)),
    }
}

/// Whether one definition's source document fails its loader.
pub open spec fn kind_load_fails(kind: Kind, input: Seq<char>) -> bool {
    match kind {
        Kind::Languages => languages_doc_of(input) is None,
        Kind::Heuristics => heuristics_doc_of(input) is None,
        Kind::Vendors => string_list_of_doc(input) is None,
        Kind::Documentation => string_list_of_doc(input) is None,
    }
}

impl Config {
    /// A fresh configuration with default options.
    pub fn new() -> (r: Config)
        ensures
            r@.out_path.len() == 0,
            r@.definitions.len() == 0,
    {
        Config::default()
    }

    /// Sets the directory that generated files are written to.
    pub fn set_out_path(&mut self, path: String)
        ensures
            final(self)@.out_path == path@,
            final(self)@.definitions == old(self)@.definitions,
    {
        self.out_path = path;
    }

    /// The directory that generated files are written to.
    pub fn out_path(&self) -> (r: &String)
        ensures
            r@ == self@.out_path,
    {
        &self.out_path
    }

    /// Appends one definition to generate.
    pub fn add_definition(&mut self, definition: Definition)
        ensures
            final(self)@.definitions == old(self)@.definitions.push(definition@),
            final(self)@.out_path == old(self)@.out_path,
    {
        self.definitions.push(definition);
        proof {
            assert(self.definitions.deep_view() =~~= old(self).definitions.deep_view().push(
                self.definitions@.last()@,
            ));
        }
    }

    /// The configured definitions, in order.
    pub fn definitions(&self) -> (r: &Vec<Definition>)
        ensures
            r.deep_view() == self@.definitions,
    {
        &self.definitions
    }

    /// Generates every configured table from the fetched source
    /// documents, one input text per definition, in order. Each output
    /// pairs the definition's name with its table text; the first
    /// document that fails to load fails the run.
    pub fn generate(&self, inputs: &Vec<String>) -> (r: Result<
        Vec<(String, String)>,
        LinguistError,
    >)
        requires
            inputs@.len() == self@.definitions.len(),
        ensures
            r matches Ok(outs) ==> outs@.len() == self@.definitions.len() && forall|i: int|
                0 <= i < outs@.len() ==> (#[trigger] outs.deep_view()[i]).0
                    == self@.definitions[i].name && generated_ok(
                    self@.definitions[i].kind,
                    inputs.deep_view()[i],
                    outs.deep_view()[i].1,
                ),
            (r is Err) == exists|i: int|
                0 <= i < self@.definitions.len() && kind_load_fails(
                    #[trigger] self@.definitions[i].kind,
                    inputs.deep_view()[i],
                ),
            r matches Err(e) ==> e == LinguistError::DeserializationError,
    {
        let ghost dd = self@.definitions;
        let mut outs: Vec<(String, String)> = Vec::new();
        let mut i: usize = 0;
        while i < self.definitions.len()
            invariant
                dd == self@.definitions,
                dd.len() == self.definitions.len(),
                inputs@.len() == dd.len(),
                i <= dd.len(),
                outs@.len() == i,
                forall|j: int|
                    0 <= j < i ==> (#[trigger] outs.deep_view()[j]).0 == dd[j].name
                        && generated_ok(dd[j].kind, inputs.deep_view()[j], outs.deep_view()[j].1),
                forall|j: int|
                    0 <= j < i ==> !kind_load_fails(#[trigger] dd[j].kind, inputs.deep_view()[j]),
            decreases self.definitions.len() - i,
        {
            let ghost prev = outs.deep_view();
            let def = &self.definitions[i];
            let input = &inputs[i];
            let text: String = match def.kind {
                Kind::Languages => {
                    let langs = match load_github_linguist_languages(input.as_str()) {
                        Ok(l) => l,
                        Err(e) => {
                            proof {
                                assert(kind_load_fails(dd[i as int].kind, inputs.deep_view()[i as int]));
                            }
                            return Err(e);
                        },
                    };
                    proof {
                        assert(!kind_load_fails(dd[i as int].kind, inputs.deep_view()[i as int]));
                    }
                    let t = languages_table_text(&langs);
                    proof {
                        assert(generated_ok(Kind::Languages, inputs.deep_view()[i as int], t@));
                    }
                    t
                },
                Kind::Heuristics => {
                    let rules = match load_github_linguist_heuristics(input.as_str()) {
                        Ok(l) => l,
                        Err(e) => {
                            proof {
                                assert(kind_load_fails(dd[i as int].kind, inputs.deep_view()[i as int]));
                            }
                            return Err(e);
                        },
                    };
                    proof {
                        assert(!kind_load_fails(dd[i as int].kind, inputs.deep_view()[i as int]));
                    }
                    let t = heuristics_table_text(&rules);
                    proof {
                        assert(generated_ok(Kind::Heuristics, inputs.deep_view()[i as int], t@));
                    }
                    t
                },
                Kind::Vendors => {
                    let ps = match load_github_vendors(input.as_str()) {
                        Ok(l) => l,
                        Err(e) => {
                            proof {
                                assert(kind_load_fails(dd[i as int].kind, inputs.deep_view()[i as int]));
                            }
                            return Err(e);
                        },
                    };
                    proof {
                        assert(!kind_load_fails(dd[i as int].kind, inputs.deep_view()[i as int]));
                    }
                    let t = patterns_table_text("VENDORS", &ps);
                    proof {
                        assert(generated_ok(Kind::Vendors, inputs.deep_view()[i as int], t@));
                    }
                    t
                },
                Kind::Documentation => {
                    let ps = match load_github_documentation(input.as_str()) {
                        Ok(l) => l,
                        Err(e) => {
                            proof {
                                assert(kind_load_fails(dd[i as int].kind, inputs.deep_view()[i as int]));
                            }
                            return Err(e);
                        },
                    };
                    proof {
                        assert(!kind_load_fails(dd[i as int].kind, inputs.deep_view()[i as int]));
                    }
                    let t = patterns_table_text("DOCUMENTATION", &ps);
                    proof {
                        assert(generated_ok(Kind::Documentation, inputs.deep_view()[i as int], t@));
                    }
                    t
                },
            };
            let name = def.name.clone();
            proof {
                assert(name@ == dd[i as int].name);
            }
            outs.push((name, text));
            proof {
                assert(outs.deep_view() =~~= prev.push(
                    (outs@.last().0@, outs@.last().1@),
                ));
            }
            i = i + 1;
        }
        Ok(outs)
    }
}

} // verus!
