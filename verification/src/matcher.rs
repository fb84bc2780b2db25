//! The pattern matcher: decides whether a stored rule of the form
//! `Tool(pattern)` covers a concrete request `Tool(path)`.
//!
//! The pattern language over the path portion is a two-tier glob: `**`
//! matches any run of characters, a single `*` matches any run of
//! characters excluding the path separator `/`, and every other character
//! stands for itself. The compiled pattern is anchored: it must cover the
//! whole path, not a substring. Every pattern path compiles — each
//! character either forms a star token or stands for itself — so matching
//! never raises; a string without the `Tool(...)` shape simply fails to
//! match.

use vstd::prelude::*;
use vstd::string::StrSliceExecFns;

use crate::text::{count_char_from, find_char, find_char_from, str_eq};

verus! {

/// Anchored glob match of `p[i..]` against `s[j..]`.
pub open spec fn glob_from(p: Seq<char>, s: Seq<char>, i: nat, j: nat) -> bool
    decreases p.len() - i, s.len() - j,
{
    if i >= p.len() {
        j >= s.len()
    } else if p[i as int] == '*' && i + 1 < p.len() && p[i as int + 1] == '*' {
        glob_from(p, s, i + 2, j) || (j < s.len() && glob_from(p, s, i, j + 1))
    } else if p[i as int] == '*' {
        glob_from(p, s, i + 1, j) || (j < s.len() && s[j as int] != '/' && glob_from(
            p,
            s,
            i,
            j + 1,
        ))
    } else {
        j < s.len() && s[j as int] == p[i as int] && glob_from(p, s, i + 1, j + 1)
    }
}

/// Anchored glob match of a whole pattern path against a whole request path.
pub open spec fn glob_matches(p: Seq<char>, s: Seq<char>) -> bool {
    glob_from(p, s, 0, 0)
}

/// Whether `s` has the `Tool(...)` shape, i.e. contains a `(`.
pub open spec fn has_tool_shape(s: Seq<char>) -> bool {
    find_char_from(s, '(', 0) < s.len()
}

/// The tool name: the text before the first `(`.
pub open spec fn tool_part(s: Seq<char>) -> Seq<char> {
    s.take(find_char_from(s, '(', 0) as int)
}

/// One trailing `)` stripped, if present.
pub open spec fn strip_rparen(s: Seq<char>) -> Seq<char> {
    if s.len() > 0 && s[s.len() - 1] == ')' {
        s.drop_last()
    } else {
        s
    }
}

/// The path portion: the text after the first `(`, with a single trailing
/// `)` stripped.
pub open spec fn path_part(s: Seq<char>) -> Seq<char> {
    strip_rparen(s.skip(find_char_from(s, '(', 0) as int + 1))
}

/// Whether the rule `pattern` covers the request string `request`: both must
/// have the `Tool(...)` shape, the tool names must be identical, and the
/// pattern's path portion must either equal the request's path portion
/// character for character or cover it as an anchored glob.
pub open spec fn spec_matches(pattern: Seq<char>, request: Seq<char>) -> bool {
    if !has_tool_shape(pattern) || !has_tool_shape(request) {
        false
    } else {
        tool_part(pattern) == tool_part(request) && (path_part(pattern) == path_part(request)
            || glob_matches(path_part(pattern), path_part(request)))
    }
}

/// Recursive worker for the anchored glob match.
fn glob_match_at(p: &str, s: &str, i: usize, j: usize) -> (r: bool)
    requires
        i <= p@.len(),
        j <= s@.len(),
    ensures
        r == glob_from(p@, s@, i as nat, j as nat),
    decreases p@.len() - i, s@.len() - j,
{
    let np = p.unicode_len();
    let ns = s.unicode_len();
    if i >= np {
        j >= ns
    } else {
        let pc = p.get_char(i);
        if pc == '*' && i + 1 < np && p.get_char(i + 1) == '*' {
            if glob_match_at(p, s, i + 2, j) {
                true
            } else if j < ns {
                glob_match_at(p, s, i, j + 1)
            } else {
                false
            }
        } else if pc == '*' {
            if glob_match_at(p, s, i + 1, j) {
                true
            } else if j < ns && s.get_char(j) != '/' {
                glob_match_at(p, s, i, j + 1)
            } else {
                false
            }
        } else {
            j < ns && s.get_char(j) == pc && glob_match_at(p, s, i + 1, j + 1)
        }
    }
}

/// Strip one trailing `)` from `s`, if present.
fn strip_trailing_rparen(s: &str) -> (r: &str)
    ensures
        r@ == strip_rparen(s@),
{
    let n = s.unicode_len();
    if n > 0 && s.get_char(n - 1) == ')' {
        let r = s.substring_char(0, n - 1);
        proof {
            assert(r@ =~= strip_rparen(s@));
        }
        r
    } else {
        s
    }
}

/// Decide whether the stored rule `pattern` covers the concrete request
/// string `request`. A string without the `Tool(...)` shape never matches;
/// tool names are compared exactly and case-sensitively; an identical path
/// portion matches outright, otherwise the path portion is interpreted as
/// an anchored glob where `**` crosses path separators and `*` does not.
pub fn match_pattern(pattern: &str, request: &str) -> (r: bool)
    ensures
        r == spec_matches(pattern@, request@),
{
    let np = pattern.unicode_len();
    let nr = request.unicode_len();
    let ip = find_char(pattern, '(');
    if ip >= np {
        return false;
    }
    let ir = find_char(request, '(');
    if ir >= nr {
        return false;
    }
    let p_tool = pattern.substring_char(0, ip);
    let r_tool = request.substring_char(0, ir);
    proof {
        assert(p_tool@ =~= tool_part(pattern@));
        assert(r_tool@ =~= tool_part(request@));
    }
    if !str_eq(p_tool, r_tool) {
        return false;
    }
    let p_rest = pattern.substring_char(ip + 1, np);
    let r_rest = request.substring_char(ir + 1, nr);
    proof {
        assert(p_rest@ =~= pattern@.skip(ip as int + 1));
        assert(r_rest@ =~= request@.skip(ir as int + 1));
    }
    let p_path = strip_trailing_rparen(p_rest);
    let r_path = strip_trailing_rparen(r_rest);
    if str_eq(p_path, r_path) {
        return true;
    }
    glob_match_at(p_path, r_path, 0, 0)
}

/// A rule never crosses tools: when the tool names differ, nothing matches,
/// whatever the path portions hold.
pub proof fn lemma_different_tool_never_matches(pattern: Seq<char>, request: Seq<char>)
    requires
        tool_part(pattern) != tool_part(request),
    ensures
        !spec_matches(pattern, request),
{
}

/// A rule matches itself, whatever characters it holds, as long as it has
/// the `Tool(...)` shape: the exact-match fast path needs no escaping.
pub proof fn lemma_identical_strings_match(pattern: Seq<char>)
    requires
        has_tool_shape(pattern),
    ensures
        spec_matches(pattern, pattern),
{
}

/// Whether a `**` token occurs anywhere in `p`.
pub open spec fn has_double_star(p: Seq<char>) -> bool {
    exists|i: int| 0 <= i && i + 1 < p.len() && #[trigger] p[i] == '*' && p[i + 1] == '*'
}

/// Whether any `*` occurs in `p`.
pub open spec fn has_star(p: Seq<char>) -> bool {
    exists|i: int| 0 <= i < p.len() && p[i] == '*'
}

proof fn lemma_glob_slash_count(p: Seq<char>, s: Seq<char>, i: nat, j: nat)
    requires
        i <= p.len(),
        j <= s.len(),
        !has_double_star(p),
        glob_from(p, s, i, j),
    ensures
        count_char_from(s, '/', j) == count_char_from(p, '/', i),
    decreases p.len() - i, s.len() - j,
{
    if i >= p.len() {
    } else if p[i as int] == '*' && i + 1 < p.len() && p[i as int + 1] == '*' {
        assert(has_double_star(p)) by {
            assert(0 <= i as int && i as int + 1 < p.len() && p[i as int] == '*' && p[i as int + 1]
                == '*');
        }
    } else if p[i as int] == '*' {
        if glob_from(p, s, i + 1, j) {
            lemma_glob_slash_count(p, s, i + 1, j);
        } else {
            lemma_glob_slash_count(p, s, i, j + 1);
        }
    } else {
        lemma_glob_slash_count(p, s, i + 1, j + 1);
    }
}

/// A single `*` never matches a path separator: a pattern without any `**`
/// token can only cover paths holding exactly as many `/` as the pattern
/// itself spells out.
pub proof fn lemma_single_star_keeps_separators(p: Seq<char>, s: Seq<char>)
    requires
        !has_double_star(p),
        glob_matches(p, s),
    ensures
        count_char_from(s, '/', 0) == count_char_from(p, '/', 0),
{
    lemma_glob_slash_count(p, s, 0, 0);
}

proof fn lemma_glob_literal(p: Seq<char>, s: Seq<char>, i: nat, j: nat)
    requires
        i <= p.len(),
        j <= s.len(),
        !has_star(p),
    ensures
        glob_from(p, s, i, j) <==> p.skip(i as int) == s.skip(j as int),
    decreases p.len() - i,
{
    if i >= p.len() {
        assert(p.skip(i as int) =~= Seq::<char>::empty());
        if j >= s.len() {
            assert(s.skip(j as int) =~= Seq::<char>::empty());
        } else {
            assert(s.skip(j as int).len() > 0);
        }
    } else {
        assert(p[i as int] != '*') by {
            if p[i as int] == '*' {
                assert(has_star(p)) by {
                    assert(0 <= (i as int) && (i as int) < p.len() && p[i as int] == '*');
                }
            }
        }
        if j < s.len() {
            lemma_glob_literal(p, s, i + 1, j + 1);
            if s[j as int] == p[i as int] && p.skip(i as int + 1) == s.skip(j as int + 1) {
                assert(forall|k: int|
                    0 <= k < p.skip(i as int + 1).len() ==> #[trigger] p.skip(i as int + 1)[k]
                        == s.skip(j as int + 1)[k]);
                assert(forall|k: int|
                    1 <= k < p.skip(i as int).len() ==> #[trigger] p.skip(i as int)[k] == p.skip(
                        i as int + 1,
                    )[k - 1]);
                assert(forall|k: int|
                    1 <= k < s.skip(j as int).len() ==> #[trigger] s.skip(j as int)[k] == s.skip(
                        j as int + 1,
                    )[k - 1]);
                assert(p.skip(i as int + 1).len() == s.skip(j as int + 1).len());
                assert(p.skip(i as int + 1).len() == p.len() - (i as int + 1));
                assert(s.skip(j as int + 1).len() == s.len() - (j as int + 1));
                assert(p.skip(i as int).len() == p.len() - i as int);
                assert(s.skip(j as int).len() == s.len() - j as int);
                assert(p.skip(i as int).len() == s.skip(j as int).len());
                assert(p.skip(i as int)[0] == p[i as int]);
                assert(s.skip(j as int)[0] == s[j as int]);
                assert(p.skip(i as int) =~= s.skip(j as int));
            }
            if p.skip(i as int) == s.skip(j as int) {
                assert(s[j as int] == p[i as int]) by {
                    assert(p.skip(i as int)[0] == p[i as int]);
                    assert(s.skip(j as int)[0] == s[j as int]);
                }
                assert(p.skip(i as int + 1) =~= s.skip(j as int + 1)) by {
                    assert(forall|k: int|
                        0 <= k < p.skip(i as int + 1).len() ==> #[trigger] p.skip(i as int + 1)[k]
                            == p.skip(i as int)[k + 1]);
                }
            }
        } else {
            assert(!glob_from(p, s, i, j));
            assert(p.skip(i as int).len() > 0);
            assert(s.skip(j as int) =~= Seq::<char>::empty());
        }
    }
}

/// A pattern without any `*` covers exactly one path: itself, character for
/// character. Comparison is exact and case-sensitive; no other
/// normalisation takes place.
pub proof fn lemma_literal_pattern_matches_only_itself(p: Seq<char>, s: Seq<char>)
    requires
        !has_star(p),
    ensures
        glob_matches(p, s) <==> p == s,
{
    lemma_glob_literal(p, s, 0, 0);
    assert(p.skip(0) =~= p);
    assert(s.skip(0) =~= s);
}

} // verus!
