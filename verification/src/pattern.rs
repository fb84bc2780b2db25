//! Deriving a sensible default rule from a concrete invocation: used when a
//! human chooses to remember a decision without hand-editing a pattern.
//!
//! A shell invocation generalises to its base command (`Bash(git *)`); a
//! relative path to a specific file generalises to its parent directory
//! (`Write(src/**)`); everything else is remembered verbatim.

use vstd::prelude::*;
use vstd::string::StrSliceExecFns;
use vstd::string::StringExecFns;

use crate::storage::PermissionStorage;
use crate::text::{contains_char, find_char_from, str_eq};

verus! {

/// The characters that delimit the tokens of a shell command line: those
/// with the Unicode `White_Space` property.
pub open spec fn is_space(c: char) -> bool {
    (c as u32) == 0x09 || (c as u32) == 0x0a || (c as u32) == 0x0b || (c as u32) == 0x0c || (
    c as u32) == 0x0d || (c as u32) == 0x20 || (c as u32) == 0x85 || (c as u32) == 0xa0 || (
    c as u32) == 0x1680 || (0x2000 <= (c as u32) && (c as u32) <= 0x200a) || (c as u32) == 0x2028
        || (c as u32) == 0x2029 || (c as u32) == 0x202f || (c as u32) == 0x205f || (c as u32)
        == 0x3000
}

/// First index at or after `i` holding a non-delimiter, or `s.len()`.
pub open spec fn nonspace_from(s: Seq<char>, i: nat) -> nat
    decreases s.len() - i,
{
    if i >= s.len() {
        s.len()
    } else if !is_space(s[i as int]) {
        i
    } else {
        nonspace_from(s, i + 1)
    }
}

/// First index at or after `i` holding a delimiter, or `s.len()`.
pub open spec fn space_from(s: Seq<char>, i: nat) -> nat
    decreases s.len() - i,
{
    if i >= s.len() {
        s.len()
    } else if is_space(s[i as int]) {
        i
    } else {
        space_from(s, i + 1)
    }
}

/// The first whitespace-delimited token of a command line, or the whole
/// line when it holds no token at all.
pub open spec fn first_token(cmd: Seq<char>) -> Seq<char> {
    let a = nonspace_from(cmd, 0);
    if a >= cmd.len() {
        cmd
    } else {
        cmd.subrange(a as int, space_from(cmd, a) as int)
    }
}

/// Largest index below `i` holding `c`, or `s.len()` when there is none.
pub open spec fn rfind_before(s: Seq<char>, c: char, i: nat) -> nat
    recommends
        i <= s.len(),
    decreases i,
{
    if i == 0 {
        s.len()
    } else if s[i - 1] == c {
        (i - 1) as nat
    } else {
        rfind_before(s, c, (i - 1) as nat)
    }
}

/// `s` with every trailing path separator dropped.
pub open spec fn trim_trailing_separators(s: Seq<char>) -> Seq<char>
    decreases s.len(),
{
    if s.len() > 0 && s[s.len() - 1] == '/' {
        trim_trailing_separators(s.drop_last())
    } else {
        s
    }
}

/// Everything before the last path separator — repeated separators before
/// it dropped as well, so `a//b.rs` widens under `a`, not `a/` — or an
/// empty sequence when the path holds no separator.
pub open spec fn parent_dir(path: Seq<char>) -> Seq<char> {
    let k = rfind_before(path, '/', path.len());
    if k == path.len() {
        Seq::empty()
    } else {
        trim_trailing_separators(path.take(k as int))
    }
}

/// The file-oriented operations whose remembered rules widen to a
/// directory.
pub open spec fn is_file_tool(tool: Seq<char>) -> bool {
    tool == "Read"@ || tool == "Write"@ || tool == "Edit"@ || tool == "Glob"@ || tool == "Grep"@
}

/// An ASCII letter, either case.
pub open spec fn is_ascii_letter(c: char) -> bool {
    (0x41 <= (c as u32) && (c as u32) <= 0x5a) || (0x61 <= (c as u32) && (c as u32) <= 0x7a)
}

/// Paths remembered verbatim even without a wildcard: home-relative,
/// absolute, or under any drive letter (`X:\`).
pub open spec fn is_verbatim_path(path: Seq<char>) -> bool {
    (path.len() >= 2 && path[0] == '~' && path[1] == '/') || (path.len() >= 1 && path[0] == '/')
        || (path.len() >= 3 && is_ascii_letter(path[0]) && path[1] == ':' && path[2] == '\\')
}

/// A relative path that names a specific file: it holds a dot and does not
/// end in a separator.
pub open spec fn names_specific_file(path: Seq<char>) -> bool {
    find_char_from(path, '.', 0) < path.len() && !(path.len() > 0 && path[path.len() - 1] == '/')
}

/// The rule derived from a concrete invocation of `tool` on `path`, where
/// `input` is the `command` field of the tool's structured payload, when
/// the payload holds one.
pub open spec fn format_pattern_spec(
    tool: Seq<char>,
    path: Seq<char>,
    input: Option<Seq<char>>,
) -> Seq<char> {
    if tool == "Bash"@ {
        match input {
            Some(cmd) => "Bash("@ + first_token(cmd) + " *)"@,
            None => "Bash("@ + path + ")"@,
        }
    } else if is_file_tool(tool) {
        if find_char_from(path, '*', 0) < path.len() {
            tool + "("@ + path + ")"@
        } else if is_verbatim_path(path) {
            tool + "("@ + path + ")"@
        } else if names_specific_file(path) {
            tool + "("@ + parent_dir(path) + "/**)"@
        } else {
            tool + "("@ + path + ")"@
        }
    } else {
        tool + "("@ + path + ")"@
    }
}

/// The view of an optional command string.
pub open spec fn view_opt(input: Option<&str>) -> Option<Seq<char>> {
    match input {
        Some(c) => Some(c@),
        None => None,
    }
}

/// Whether `c` delimits shell command tokens.
fn is_space_char(c: char) -> (r: bool)
    ensures
        r == is_space(c),
{
    let u = c as u32;
    u == 0x09 || u == 0x0a || u == 0x0b || u == 0x0c || u == 0x0d || u == 0x20 || u == 0x85 || u
        == 0xa0 || u == 0x1680 || (0x2000 <= u && u <= 0x200a) || u == 0x2028 || u == 0x2029 || u
        == 0x202f || u == 0x205f || u == 0x3000
}

/// First index at or after `from` holding a non-delimiter, or `s.len()`.
fn scan_nonspace(s: &str, from: usize) -> (r: usize)
    requires
        from <= s@.len(),
    ensures
        r as nat == nonspace_from(s@, from as nat),
        from <= r <= s@.len(),
    decreases s@.len() - from,
{
    let n = s.unicode_len();
    let mut i = from;
    while i < n
        invariant
            from <= i <= n,
            n == s@.len(),
            nonspace_from(s@, from as nat) == nonspace_from(s@, i as nat),
        decreases n - i,
    {
        if !is_space_char(s.get_char(i)) {
            return i;
        }
        i = i + 1;
    }
    i
}

/// First index at or after `from` holding a delimiter, or `s.len()`.
fn scan_space(s: &str, from: usize) -> (r: usize)
    requires
        from <= s@.len(),
    ensures
        r as nat == space_from(s@, from as nat),
        from <= r <= s@.len(),
    decreases s@.len() - from,
{
    let n = s.unicode_len();
    let mut i = from;
    while i < n
        invariant
            from <= i <= n,
            n == s@.len(),
            space_from(s@, from as nat) == space_from(s@, i as nat),
        decreases n - i,
    {
        if is_space_char(s.get_char(i)) {
            return i;
        }
        i = i + 1;
    }
    i
}

/// Largest index holding `c`, or `s.len()` when `c` does not occur.
fn rfind_char(s: &str, c: char) -> (r: usize)
    ensures
        r as nat == rfind_before(s@, c, s@.len()),
        r <= s@.len(),
{
    let n = s.unicode_len();
    let mut j = n;
    while j > 0
        invariant
            j <= n,
            n == s@.len(),
            rfind_before(s@, c, n as nat) == rfind_before(s@, c, j as nat),
        decreases j,
    {
        if s.get_char(j - 1) == c {
            return j - 1;
        }
        j = j - 1;
    }
    n
}

/// Whether `tool` is one of the file-oriented operations.
fn is_file_tool_exec(tool: &str) -> (r: bool)
    ensures
        r == is_file_tool(tool@),
{
    str_eq(tool, "Read") || str_eq(tool, "Write") || str_eq(tool, "Edit") || str_eq(tool, "Glob")
        || str_eq(tool, "Grep")
}

/// Whether `c` is an ASCII letter, either case.
fn is_ascii_letter_char(c: char) -> (r: bool)
    ensures
        r == is_ascii_letter(c),
{
    let u = c as u32;
    (0x41 <= u && u <= 0x5a) || (0x61 <= u && u <= 0x7a)
}

/// Whether `path` is remembered verbatim: home-relative, absolute, or under
/// any drive letter.
fn is_verbatim_path_exec(path: &str) -> (r: bool)
    ensures
        r == is_verbatim_path(path@),
{
    let n = path.unicode_len();
    (n >= 2 && path.get_char(0) == '~' && path.get_char(1) == '/') || (n >= 1 && path.get_char(0)
        == '/') || (n >= 3 && is_ascii_letter_char(path.get_char(0)) && path.get_char(1) == ':'
        && path.get_char(2) == '\\')
}

/// Largest prefix end at or below `end` that does not close on a path
/// separator.
fn trim_sep_end(path: &str, end: usize) -> (r: usize)
    requires
        end <= path@.len(),
    ensures
        r <= end,
        path@.take(r as int) == trim_trailing_separators(path@.take(end as int)),
    decreases end,
{
    if end > 0 && path.get_char(end - 1) == '/' {
        proof {
            assert(path@.take(end as int).drop_last() =~= path@.take(end as int - 1));
        }
        trim_sep_end(path, end - 1)
    } else {
        end
    }
}

/// The parent directory of `path`: everything before the last separator,
/// repeated separators collapsed; empty when the path holds no separator.
fn parent_of(path: &str) -> (r: &str)
    ensures
        r@ == parent_dir(path@),
{
    let n = path.unicode_len();
    let k = rfind_char(path, '/');
    if k >= n {
        let r = path.substring_char(0, 0);
        proof {
            assert(r@ =~= parent_dir(path@));
        }
        r
    } else {
        let end = trim_sep_end(path, k);
        let r = path.substring_char(0, end);
        proof {
            assert(r@ == parent_dir(path@));
        }
        r
    }
}

/// `Tool(path)`, verbatim.
pub(crate) fn verbatim_pattern(tool: &str, path: &str) -> (r: String)
    ensures
        r@ == tool@ + "("@ + path@ + ")"@,
{
    let mut out = String::new();
    out.append(tool);
    out.append("(");
    out.append(path);
    out.append(")");
    proof {
        assert(out@ =~= tool@ + "("@ + path@ + ")"@);
    }
    out
}

impl PermissionStorage {
    /// Derive the rule to remember from a concrete invocation. For a shell
    /// invocation whose structured payload carries a `command` field,
    /// `input` is that field's value and the rule generalises to the
    /// command's first token; a file operation on a relative path naming a
    /// specific file widens to its parent directory; everything else is
    /// remembered verbatim.
    pub fn format_pattern(tool: &str, path: &str, input: Option<&str>) -> (r: String)
        ensures
            r@ == format_pattern_spec(tool@, path@, view_opt(input)),
    {
        if str_eq(tool, "Bash") {
            match input {
                Some(cmd) => {
                    let n = cmd.unicode_len();
                    let a = scan_nonspace(cmd, 0);
                    let mut out = String::new();
                    out.append("Bash(");
                    if a >= n {
                        out.append(cmd);
                    } else {
                        let b = scan_space(cmd, a);
                        let base = cmd.substring_char(a, b);
                        out.append(base);
                    }
                    out.append(" *)");
                    proof {
                        assert(out@ =~= format_pattern_spec(tool@, path@, view_opt(input)));
                    }
                    out
                },
                None => {
                    let out = verbatim_pattern(tool, path);
                    proof {
                        reveal_strlit("Bash");
                        reveal_strlit("Bash(");
                        reveal_strlit("(");
                        assert(out@ =~= format_pattern_spec(tool@, path@, view_opt(input)));
                    }
                    out
                },
            }
        } else if is_file_tool_exec(tool) {
            if contains_char(path, '*') {
                verbatim_pattern(tool, path)
            } else if is_verbatim_path_exec(path) {
                verbatim_pattern(tool, path)
            } else if contains_char(path, '.') && !ends_with_slash(path) {
                let mut out = String::new();
                out.append(tool);
                out.append("(");
                let parent = parent_of(path);
                out.append(parent);
                out.append("/**)");
                proof {
                    assert(out@ =~= format_pattern_spec(tool@, path@, view_opt(input)));
                }
                out
            } else {
                verbatim_pattern(tool, path)
            }
        } else {
            verbatim_pattern(tool, path)
        }
    }
}

/// Whether `path` ends in a path separator.
fn ends_with_slash(path: &str) -> (r: bool)
    ensures
        r == (path@.len() > 0 && path@[path@.len() - 1] == '/'),
{
    let n = path.unicode_len();
    n > 0 && path.get_char(n - 1) == '/'
}

} // verus!
