//! Path classification predicates: binary, configuration, generated,
//! dotfile, vendor and documentation files.

use vstd::prelude::*;
use vstd::string::StrSliceExecFns;

use crate::matcher::{regex_set_matches, PathMatcher};
use crate::text::{base_name, base_name_str, extension_of, extension_of_str, lower, lower_str, str_eq};

verus! {

/// How many leading bytes the binary probe examines.
pub open spec fn binary_probe_len() -> int {
    8000
}

/// A buffer counts as binary when a zero byte occurs among its first
/// 8000 bytes.
pub open spec fn is_binary_spec(data: Seq<u8>) -> bool {
    exists|i: int| 0 <= i < data.len() && i < binary_probe_len() && data[i] == 0
}

/// Probes the leading bytes of a file for a zero byte.
pub fn is_binary(data: &[u8]) -> (r: bool)
    ensures
        r == is_binary_spec(data@),
{
    let n = data.len();
    let limit = if n < 8000 {
        n
    } else {
        8000
    };
    let mut i: usize = 0;
    while i < limit
        invariant
            n == data@.len(),
            limit <= n,
            limit == if n < 8000 {
                n as int
            } else {
                8000
            },
            i <= limit,
            forall|j: int| 0 <= j < i ==> data@[j] != 0,
        decreases limit - i,
    {
        if data[i] == 0 {
            return true;
        }
        i = i + 1;
    }
    false
}

/// `data` with every zero byte removed.
pub open spec fn strip_zeros(data: Seq<u8>) -> Seq<u8>
    decreases data.len(),
{
    if data.len() == 0 {
        Seq::empty()
    } else if data.first() == 0 {
        strip_zeros(data.drop_first())
    } else {
        seq![data.first()] + strip_zeros(data.drop_first())
    }
}

proof fn lemma_strip_zeros_no_zero(data: Seq<u8>)
    ensures
        forall|i: int| 0 <= i < strip_zeros(data).len() ==> strip_zeros(data)[i] != 0,
    decreases data.len(),
{
    if data.len() == 0 {
    } else {
        lemma_strip_zeros_no_zero(data.drop_first());
        if data.first() == 0 {
            assert forall|i: int| 0 <= i < strip_zeros(data).len() implies strip_zeros(data)[i]
                != 0 by {
                assert(strip_zeros(data)[i] == strip_zeros(data.drop_first())[i]);
            }
        } else {
            assert forall|i: int| 0 <= i < strip_zeros(data).len() implies strip_zeros(data)[i]
                != 0 by {
                if i == 0 {
                    assert(strip_zeros(data)[0] == data.first());
                } else {
                    assert(strip_zeros(data)[i] == strip_zeros(data.drop_first())[i - 1]);
                }
            }
        }
    }
}

/// A short buffer with a zero byte is recognized as binary, and removing
/// every zero byte always makes the probe answer `false`.
pub proof fn lemma_binary_detection(data: Seq<u8>, i: int)
    requires
        data.len() < binary_probe_len(),
        0 <= i < data.len(),
        data[i] == 0,
    ensures
        is_binary_spec(data),
        !is_binary_spec(strip_zeros(data)),
{
    lemma_strip_zeros_no_zero(data);
}

/// The extensions that mark a configuration file.
pub open spec fn configuration_extensions() -> Seq<Seq<char>> {
    seq!["xml"@, "json"@, "toml"@, "yaml"@, "ini"@, "sql"@]
}

/// A path names a configuration file when its lower-cased extension is
/// one of the configuration extensions.
pub open spec fn is_configuration_spec(path: Seq<char>) -> bool {
    match extension_of(path) {
        Some(e) => configuration_extensions().contains(lower(e)),
        None => false,
    }
}

proof fn lemma_configuration_contains(x: Seq<char>)
    ensures
        configuration_extensions().contains(x) <==> (x == "xml"@ || x == "json"@ || x == "toml"@
            || x == "yaml"@ || x == "ini"@ || x == "sql"@),
{
    let s = configuration_extensions();
    if s.contains(x) {
        let i = choose|i: int| 0 <= i < s.len() && s[i] == x;
        assert(i == 0 || i == 1 || i == 2 || i == 3 || i == 4 || i == 5);
    }
    if x == "xml"@ {
        assert(s[0] == x);
    } else if x == "json"@ {
        assert(s[1] == x);
    } else if x == "toml"@ {
        assert(s[2] == x);
    } else if x == "yaml"@ {
        assert(s[3] == x);
    } else if x == "ini"@ {
        assert(s[4] == x);
    } else if x == "sql"@ {
        assert(s[5] == x);
    }
}

/// Whether the path names a configuration file.
pub fn is_configuration(file: &str) -> (r: bool)
    ensures
        r == is_configuration_spec(file@),
{
    match extension_of_str(file) {
        Some(e) => {
            let le = lower_str(e.as_str());
            let hit = str_eq(le.as_str(), "xml") || str_eq(le.as_str(), "json") || str_eq(
                le.as_str(),
                "toml",
            ) || str_eq(le.as_str(), "yaml") || str_eq(le.as_str(), "ini") || str_eq(
                le.as_str(),
                "sql",
            );
            proof {
                lemma_configuration_contains(le@);
            }
            hit
        },
        None => false,
    }
}

/// The extensions that mark a build-system-generated file.
pub open spec fn generated_extensions() -> Seq<Seq<char>> {
    seq!["nib"@, "xcworkspacedata"@, "xcuserstate"@]
}

/// A path names a generated file when its extension, exactly as written,
/// is one of the generated extensions.
pub open spec fn is_generated_spec(path: Seq<char>) -> bool {
    match extension_of(path) {
        Some(e) => generated_extensions().contains(e),
        None => false,
    }
}

proof fn lemma_generated_contains(x: Seq<char>)
    ensures
        generated_extensions().contains(x) <==> (x == "nib"@ || x == "xcworkspacedata"@ || x
            == "xcuserstate"@),
{
    let s = generated_extensions();
    if s.contains(x) {
        let i = choose|i: int| 0 <= i < s.len() && s[i] == x;
        assert(i == 0 || i == 1 || i == 2);
    }
    if x == "nib"@ {
        assert(s[0] == x);
    } else if x == "xcworkspacedata"@ {
        assert(s[1] == x);
    } else if x == "xcuserstate"@ {
        assert(s[2] == x);
    }
}

/// Whether the path names a generated file.
pub fn is_generated(file: &str) -> (r: bool)
    ensures
        r == is_generated_spec(file@),
{
    match extension_of_str(file) {
        Some(e) => {
            let hit = str_eq(e.as_str(), "nib") || str_eq(e.as_str(), "xcworkspacedata") || str_eq(
                e.as_str(),
                "xcuserstate",
            );
            proof {
                lemma_generated_contains(e@);
            }
            hit
        },
        None => false,
    }
}

/// A dotfile: the last path segment starts with a dot and is not the
/// bare `.` segment.
pub open spec fn is_dotfile_spec(path: Seq<char>) -> bool {
    let name = base_name(path);
    name.len() >= 2 && name[0] == '.'
}

/// Whether the path names a dotfile.
pub fn is_dotfile(file: &str) -> (r: bool)
    ensures
        r == is_dotfile_spec(file@),
{
    let name = base_name_str(file);
    let n: usize = name.as_str().unicode_len();
    n >= 2 && name.as_str().get_char(0) == '.'
}

/// Whether any pattern of the vendor matcher accepts the path.
pub fn is_vendor(file: &str, matcher: &PathMatcher) -> (r: bool)
    ensures
        r == regex_set_matches(matcher@, file@),
{
    matcher.is_match(file)
}

/// Whether any pattern of the documentation matcher accepts the path.
pub fn is_documentation(file: &str, matcher: &PathMatcher) -> (r: bool)
    ensures
        r == regex_set_matches(matcher@, file@),
{
    matcher.is_match(file)
}

/// Whether a buffer opens with the `#!` shebang marker.
pub fn has_shebang(data: &[u8]) -> (r: bool)
    ensures
        r == (data@.len() >= 2 && data@[0] == 35 && data@[1] == 33),
{
    data.len() >= 2 && data[0] == 35 && data[1] == 33
}

/// The built-in documentation path patterns.
pub open spec fn documentation_patterns_spec() -> Seq<Seq<char>> {
    seq![
        "[Dd]ocs?/"@,
        "(^|/)[Dd]ocumentation/"@,
        "(^|/)[Gg]roovydoc/"@,
        "(^|/)[Jj]avadoc/"@,
        "^[Mm]an/"@,
        "^[Ee]xamples/"@,
        "^[Dd]emos?/"@,
        "(^|/)inst/doc/"@,
        "(^|/)CITATION(\\.cff|(S)?(\\.(bib|md))?)$"@,
        "(^|/)CHANGE(S|LOG)?(\\.|$)"@,
        "(^|/)CONTRIBUTING(\\.|$)"@,
        "(^|/)COPYING(\\.|$)"@,
        "(^|/)INSTALL(\\.|$)"@,
        "(^|/)LICEN[CS]E(\\.|$)"@,
        "(^|/)[Ll]icen[cs]e(\\.|$)"@,
        "(^|/)README(\\.|$)"@,
        "(^|/)[Rr]eadme(\\.|$)"@,
        "^[Ss]amples?/"@,
    ]
}

/// Builds the built-in documentation path patterns.
pub fn documentation_patterns() -> (r: Vec<String>)
    ensures
        r.deep_view() == documentation_patterns_spec(),
{
    let mut v: Vec<String> = Vec::new();
    v.push("[Dd]ocs?/".to_owned());
    v.push("(^|/)[Dd]ocumentation/".to_owned());
    v.push("(^|/)[Gg]roovydoc/".to_owned());
    v.push("(^|/)[Jj]avadoc/".to_owned());
    v.push("^[Mm]an/".to_owned());
    v.push("^[Ee]xamples/".to_owned());
    v.push("^[Dd]emos?/".to_owned());
    v.push("(^|/)inst/doc/".to_owned());
    v.push("(^|/)CITATION(\\.cff|(S)?(\\.(bib|md))?)$".to_owned());
    v.push("(^|/)CHANGE(S|LOG)?(\\.|$)".to_owned());
    v.push("(^|/)CONTRIBUTING(\\.|$)".to_owned());
    v.push("(^|/)COPYING(\\.|$)".to_owned());
    v.push("(^|/)INSTALL(\\.|$)".to_owned());
    v.push("(^|/)LICEN[CS]E(\\.|$)".to_owned());
    v.push("(^|/)[Ll]icen[cs]e(\\.|$)".to_owned());
    v.push("(^|/)README(\\.|$)".to_owned());
    v.push("(^|/)[Rr]eadme(\\.|$)".to_owned());
    v.push("^[Ss]amples?/".to_owned());
    proof {
        assert(v.deep_view() =~~= documentation_patterns_spec());
    }
    v
}

/// The substrings whose presence marks a pattern as using regex features
/// outside the supported dialect: lookaround, atomic groups,
/// backreferences and possessive quantifiers.
pub open spec fn unsupported_regex_marks() -> Seq<Seq<char>> {
    seq!["(?<"@, "(?="@, "(?!"@, "(?>"@, "\\1"@, "*+"@]
}

/// A pattern is outside the supported dialect when it holds any of the
/// marker substrings.
pub open spec fn is_unsupported_regex_spec(p: Seq<char>) -> bool {
    exists|i: int|
        0 <= i < unsupported_regex_marks().len() && crate::text::contains_sub(
            p,
            #[trigger] unsupported_regex_marks()[i],
        )
}

/// Whether the pattern uses regex features outside the supported
/// dialect.
pub fn is_unsupported_regex_syntax(input: &str) -> (r: bool)
    ensures
        r == is_unsupported_regex_spec(input@),
{
    let hit = crate::text::str_contains_sub(input, "(?<") || crate::text::str_contains_sub(
        input,
        "(?=",
    ) || crate::text::str_contains_sub(input, "(?!") || crate::text::str_contains_sub(input, "(?>")
        || crate::text::str_contains_sub(input, "\\1") || crate::text::str_contains_sub(
        input,
        "*+",
    );
    proof {
        let m = unsupported_regex_marks();
        if hit {
            if crate::text::contains_sub(input@, "(?<"@) {
                assert(m[0] == "(?<"@);
            } else if crate::text::contains_sub(input@, "(?="@) {
                assert(m[1] == "(?="@);
            } else if crate::text::contains_sub(input@, "(?!"@) {
                assert(m[2] == "(?!"@);
            } else if crate::text::contains_sub(input@, "(?>"@) {
                assert(m[3] == "(?>"@);
            } else if crate::text::contains_sub(input@, "\\1"@) {
                assert(m[4] == "\\1"@);
            } else {
                assert(m[5] == "*+"@);
            }
        } else {
            assert forall|i: int| 0 <= i < m.len() implies !crate::text::contains_sub(
                input@,
                #[trigger] m[i],
            ) by {
                assert(i == 0 || i == 1 || i == 2 || i == 3 || i == 4 || i == 5);
            }
        }
    }
    hit
}

} // verus!
