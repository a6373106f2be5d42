//! The shebang parser: extracts an interpreter name from the first line
//! of a file, with the `env`, `sh`, `python` and `osascript` special
//! cases.

use vstd::prelude::*;
use vstd::string::StrSliceExecFns;

use crate::matcher::{capture_exec_line, exec_line_capture};
use crate::text::{
    base_name, base_name_str, find_newline_from, first_line, is_alpha, is_alpha_exec, is_digit,
    is_digit_exec, lemma_line_len_is, line_len, prefix_before, prefix_before_str, split_ws,
    split_ws_str, str_contains_sub, str_eq, str_starts_with, contains_sub,
};

verus! {

/// An `env` option field: `-` followed by letters only.
pub open spec fn is_env_opt(s: Seq<char>) -> bool {
    s.len() >= 2 && s[0] == '-' && forall|i: int| 1 <= i < s.len() ==> is_alpha(#[trigger] s[i])
}

/// An `env` variable-reference field: `$` followed by letters or `_`.
pub open spec fn is_env_var(s: Seq<char>) -> bool {
    s.len() >= 2 && s[0] == '$' && forall|i: int|
        1 <= i < s.len() ==> is_alpha(#[trigger] s[i]) || s[i] == '_'
}

/// A field that `env` handling discards.
pub open spec fn is_env_arg(s: Seq<char>) -> bool {
    is_env_opt(s) || is_env_var(s)
}

/// Decides `is_env_arg`.
pub fn is_env_arg_exec(s: &str) -> (r: bool)
    ensures
        r == is_env_arg(s@),
{
    let n: usize = s.unicode_len();
    if n < 2 {
        return false;
    }
    let head = s.get_char(0);
    if head != '-' && head != '$' {
        return false;
    }
    let allow_underscore = head == '$';
    let mut i: usize = 1;
    while i < n
        invariant
            n == s@.len(),
            n >= 2,
            1 <= i <= n,
            head == s@[0],
            head == '-' || head == '$',
            allow_underscore == (head == '$'),
            forall|j: int| 1 <= j < i ==> is_alpha(#[trigger] s@[j]) || s@[j] == '_',
            !allow_underscore ==> forall|j: int| 1 <= j < i ==> is_alpha(#[trigger] s@[j]),
        decreases n - i,
    {
        let c = s.get_char(i);
        if is_alpha_exec(c) {
        } else if allow_underscore && c == '_' {
        } else {
            return false;
        }
        i = i + 1;
    }
    true
}

/// An interpreter name of the form `python<digits>.<anything>`.
pub open spec fn python_versioned(s: Seq<char>) -> bool {
    "python"@.is_prefix_of(s) && exists|k: int|
        6 <= k < s.len() && #[trigger] s[k] == '.' && (forall|j: int|
            6 <= j < k ==> is_digit(#[trigger] s[j]))
}

/// Decides `python_versioned`.
pub fn is_python_versioned(s: &str) -> (r: bool)
    ensures
        r == python_versioned(s@),
{
    if !str_starts_with(s, "python") {
        return false;
    }
    proof {
        reveal_strlit("python");
    }
    let n: usize = s.unicode_len();
    let mut j: usize = 6;
    while j < n
        invariant
            n == s@.len(),
            n >= 6,
            "python"@.is_prefix_of(s@),
            6 <= j <= n,
            forall|t: int| 6 <= t < j ==> is_digit(#[trigger] s@[t]),
        decreases n - j,
    {
        let c = s.get_char(j);
        if c == '.' {
            proof {
                assert(s@[j as int] == '.');
            }
            return true;
        }
        if !is_digit_exec(c) {
            proof {
                assert forall|k: int| 6 <= k < s@.len() implies !(s@[k] == '.' && (forall|t: int|
                    6 <= t < k ==> is_digit(#[trigger] s@[t]))) by {
                    if k < j {
                        assert(is_digit(s@[k]));
                    } else if k == j {
                    } else {
                        assert(!is_digit(s@[j as int]));
                    }
                }
            }
            return false;
        }
        j = j + 1;
    }
    proof {
        assert forall|k: int| 6 <= k < s@.len() implies !(s@[k] == '.') by {
            assert(is_digit(s@[k]));
        }
    }
    false
}

/// The fields left after `env` discards leading option and variable
/// fields, keeping at least one.
pub open spec fn skip_env_fields(fs: Seq<Seq<char>>) -> Seq<Seq<char>>
    decreases fs.len(),
{
    if fs.len() > 1 && is_env_arg(fs[0]) {
        skip_env_fields(fs.drop_first())
    } else {
        fs
    }
}

/// The interpreter that the multi-line `exec` scan yields: the command
/// captured on the first of up to `fuel` lines, or `sh`.
pub open spec fn sh_exec_interp(rest: Seq<char>, fuel: nat) -> Seq<char>
    decreases fuel,
{
    if fuel == 0 || rest.len() == 0 {
        "sh"@
    } else {
        let l = line_len(rest);
        match exec_line_capture(rest.take(l as int)) {
            Some(cmd) => cmd,
            None => {
                if l == rest.len() {
                    "sh"@
                } else {
                    sh_exec_interp(rest.skip(l + 1 as int), (fuel - 1) as nat)
                }
            },
        }
    }
}

/// Everything after the first line of `content`.
pub open spec fn rest_after_first_line(content: Seq<char>) -> Seq<char> {
    if line_len(content) == content.len() {
        Seq::empty()
    } else {
        content.skip(line_len(content) + 1 as int)
    }
}

/// The `sh`, `python` and `osascript` adjustments applied to a raw
/// interpreter name. `after` is the first line beyond `#!`; `rest` is
/// everything beyond the first line.
pub open spec fn post_process(interp0: Seq<char>, after: Seq<char>, rest: Seq<char>) -> Seq<char> {
    let s1 = if interp0 == "sh"@ {
        sh_exec_interp(rest, 5)
    } else {
        interp0
    };
    let s2 = if python_versioned(s1) {
        prefix_before(s1, '.')
    } else {
        s1
    };
    if s2 == "osascript"@ && contains_sub(after, "-l"@) {
        Seq::empty()
    } else {
        s2
    }
}

/// What the shebang parser returns on a file's contents: `None` without
/// a `#!` line or an interpreter field, otherwise the processed
/// interpreter name, which the `osascript` case may leave empty.
pub open spec fn shebang_interpreter_spec(content: Seq<char>) -> Option<Seq<char>> {
    if content.len() < 2 || content[0] != '#' || content[1] != '!' {
        None
    } else {
        let after = first_line(content).skip(2);
        let fields = split_ws(after);
        if fields.len() == 0 {
            None
        } else if base_name(fields[0]) == "env"@ {
            if fields.len() == 1 {
                None
            } else {
                let rem = skip_env_fields(fields.drop_first());
                Some(post_process(base_name(rem[0]), after, rest_after_first_line(content)))
            }
        } else {
            Some(post_process(base_name(fields[0]), after, rest_after_first_line(content)))
        }
    }
}

/// A blank shebang line yields no interpreter rather than an error:
/// whenever nothing but whitespace follows `#!` on the first line, the
/// parser answers `None`.
pub proof fn lemma_empty_shebang(content: Seq<char>)
    requires
        content.len() >= 2,
        content[0] == '#',
        content[1] == '!',
        forall|j: int| 2 <= j < line_len(content) ==> crate::text::is_space(#[trigger] content[j]),
    ensures
        shebang_interpreter_spec(content) is None,
{
    let t = content.drop_first();
    assert(t[0] == content[1]);
    assert(line_len(t) >= 1);
    assert(line_len(content) == 1 + line_len(t));
    crate::text::lemma_line_len_le(content);
    let after = first_line(content).skip(2);
    assert forall|k: int| 0 <= k < after.len() implies crate::text::is_space(
        #[trigger] after[k],
    ) by {
        assert(after[k] == content[k + 2]);
    }
    crate::text::lemma_split_ws_all_space(after);
}

/// Scans up to five lines for an `exec` redirection of the form
/// `exec <cmd> ... $0 ... $@` and returns the command, defaulting to
/// `sh`.
pub fn determine_multiline_exec(data: &str) -> (r: Option<String>)
    ensures
        r matches Some(s) && s@ == sh_exec_interp(data@, 5),
{
    let n: usize = data.unicode_len();
    proof {
        assert(data@.skip(0) =~= data@);
    }
    let mut pos: usize = 0;
    let mut count: usize = 0;
    while count < 5
        invariant
            n == data@.len(),
            pos <= n,
            count <= 5,
            sh_exec_interp(data@, 5) == sh_exec_interp(data@.skip(pos as int), (5 - count) as nat),
        decreases 5 - count,
    {
        if pos >= n {
            proof {
                assert(data@.skip(pos as int).len() == 0);
            }
            return Some("sh".to_owned());
        }
        let j = find_newline_from(data, pos);
        let line = data.substring_char(pos, j);
        let ghost t = data@.skip(pos as int);
        proof {
            assert forall|k: int| 0 <= k < j - pos implies t[k] != '\n' by {
                assert(t[k] == data@[pos + k]);
            }
            if j < n {
                assert(t[j - pos] == data@[j as int]);
            }
            lemma_line_len_is(t, j - pos);
            assert(line@ =~= t.take(j - pos));
        }
        match capture_exec_line(line) {
            Some(cmd) => {
                proof {
                    assert(exec_line_capture(t.take(line_len(t) as int)) == Some(cmd@));
                }
                return Some(cmd);
            },
            None => {
                if j == n {
                    proof {
                        assert(line_len(t) == t.len());
                    }
                    return Some("sh".to_owned());
                }
                proof {
                    assert(t.skip(line_len(t) + 1 as int) =~= data@.skip(j + 1));
                }
                pos = j + 1;
                count = count + 1;
            },
        }
    }
    Some("sh".to_owned())
}

/// Parses the shebang line of `content` and returns the interpreter
/// name: `None` without a usable shebang, `Some` otherwise, possibly
/// holding the empty string for an untrusted `osascript` line.
pub fn shebang_interpreter(content: &str) -> (r: Option<String>)
    ensures
        r.deep_view() == shebang_interpreter_spec(content@),
{
    let n: usize = content.unicode_len();
    if n < 2 || content.get_char(0) != '#' || content.get_char(1) != '!' {
        return None;
    }
    let l1 = find_newline_from(content, 0);
    proof {
        lemma_line_len_is(content@, l1 as int);
        assert(l1 >= 2);
    }
    let after = content.substring_char(2, l1);
    proof {
        assert(after@ =~= first_line(content@).skip(2));
    }
    let fields = split_ws_str(after);
    let ghost fd = fields.deep_view();
    if fields.len() == 0 {
        return None;
    }
    let interp0 = base_name_str(fields[0].as_str());
    let chosen: String;
    if str_eq(interp0.as_str(), "env") {
        if fields.len() == 1 {
            return None;
        }
        let mut i: usize = 1;
        while fields.len() - i > 1 && is_env_arg_exec(fields[i].as_str())
            invariant
                fd == fields.deep_view(),
                fd.len() == fields.len(),
                fd.len() >= 2,
                1 <= i < fd.len(),
                skip_env_fields(fd.drop_first()) == skip_env_fields(fd.skip(i as int)),
            decreases fd.len() - i,
        {
            proof {
                assert(fd.skip(i as int)[0] == fd[i as int]);
                assert(fd.skip(i as int).drop_first() =~= fd.skip(i + 1));
            }
            i = i + 1;
        }
        proof {
            assert(fd.skip(i as int)[0] == fd[i as int]);
            assert(skip_env_fields(fd.skip(i as int)) == fd.skip(i as int));
            assert(skip_env_fields(fd.drop_first())[0] == fd[i as int]);
        }
        chosen = base_name_str(fields[i].as_str());
    } else {
        chosen = interp0;
    }
    let rest: &str = if l1 == n {
        content.substring_char(n, n)
    } else {
        content.substring_char(l1 + 1, n)
    };
    proof {
        assert(rest@ =~= rest_after_first_line(content@));
    }
    let step1: String = if str_eq(chosen.as_str(), "sh") {
        let scanned = determine_multiline_exec(rest);
        scanned.unwrap()
    } else {
        chosen
    };
    let step2: String = if is_python_versioned(step1.as_str()) {
        prefix_before_str(step1.as_str(), '.')
    } else {
        step1
    };
    let step3: String = if str_eq(step2.as_str(), "osascript") && str_contains_sub(after, "-l") {
        String::new()
    } else {
        step2
    };
    Some(step3)
}

} // verus!
