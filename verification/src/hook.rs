//! The hook-configuration artifact: a JSON document registering a single
//! pre-invocation hook that pipes every attempted tool invocation through
//! an external command built from a given executable path and this
//! gateway's listening port, with a bounded invocation timeout.
//!
//! The document is produced as bytes directly; the executable path is
//! embedded as a JSON string, escaped as JSON requires.

use vstd::prelude::*;
use vstd::string::StrSliceExecFns;
use vstd::string::StringExecFns;

use crate::storage::PermissionStorage;
use crate::text::push_char;

verus! {

/// The hexadecimal digit character for a value below sixteen.
pub open spec fn hex_digit(d: nat) -> char {
    if d == 0 {
        '0'
    } else if d == 1 {
        '1'
    } else if d == 2 {
        '2'
    } else if d == 3 {
        '3'
    } else if d == 4 {
        '4'
    } else if d == 5 {
        '5'
    } else if d == 6 {
        '6'
    } else if d == 7 {
        '7'
    } else if d == 8 {
        '8'
    } else if d == 9 {
        '9'
    } else if d == 10 {
        'a'
    } else if d == 11 {
        'b'
    } else if d == 12 {
        'c'
    } else if d == 13 {
        'd'
    } else if d == 14 {
        'e'
    } else {
        'f'
    }
}

/// How one character is embedded in a JSON string: quote and backslash get
/// a backslash escape, the named control characters their short forms,
/// any other control character a `\u00XX` escape, and everything else
/// stands as itself.
pub open spec fn escape_char(c: char) -> Seq<char> {
    if c == '"' {
        seq!['\\', '"']
    } else if c == '\\' {
        seq!['\\', '\\']
    } else if c == '\x08' {
        seq!['\\', 'b']
    } else if c == '\x0c' {
        seq!['\\', 'f']
    } else if c == '\n' {
        seq!['\\', 'n']
    } else if c == '\r' {
        seq!['\\', 'r']
    } else if c == '\t' {
        seq!['\\', 't']
    } else if (c as u32) < 32 {
        seq!['\\', 'u', '0', '0', hex_digit((c as u32 / 16) as nat), hex_digit((c as u32 % 16) as nat)]
    } else {
        seq![c]
    }
}

/// The first `i` characters of `s`, embedded in a JSON string.
pub open spec fn json_escaped_upto(s: Seq<char>, i: nat) -> Seq<char>
    decreases i,
{
    if i == 0 || i > s.len() {
        Seq::empty()
    } else {
        json_escaped_upto(s, (i - 1) as nat) + escape_char(s[i - 1])
    }
}

/// `s`, embedded in a JSON string.
pub open spec fn json_escaped(s: Seq<char>) -> Seq<char> {
    json_escaped_upto(s, s.len())
}

/// The decimal digits of `n`, most significant first.
pub open spec fn dec_digits(n: nat) -> Seq<char>
    decreases n,
{
    if n < 10 {
        seq![hex_digit(n)]
    } else {
        dec_digits(n / 10).push(hex_digit(n % 10))
    }
}

/// The whole hook-configuration document for a given executable path and
/// listening port: one pre-invocation registration whose matcher covers
/// every tool, running `python <path> <port>` with a timeout of 300.
pub open spec fn hook_settings_spec(hook_path: Seq<char>, port: u16) -> Seq<char> {
    "{\"hooks\":{\"PreToolUse\":[{\"matcher\":\"*\",\"hooks\":[{\"type\":\"command\",\"command\":\"python "@
        + json_escaped(hook_path) + " "@ + dec_digits(port as nat)
        + "\",\"timeout\":300}]}]}}"@
}

/// The hexadecimal digit character for a value below sixteen.
fn hex_digit_char(d: u32) -> (r: char)
    requires
        d < 16,
    ensures
        r == hex_digit(d as nat),
{
    if d == 0 {
        '0'
    } else if d == 1 {
        '1'
    } else if d == 2 {
        '2'
    } else if d == 3 {
        '3'
    } else if d == 4 {
        '4'
    } else if d == 5 {
        '5'
    } else if d == 6 {
        '6'
    } else if d == 7 {
        '7'
    } else if d == 8 {
        '8'
    } else if d == 9 {
        '9'
    } else if d == 10 {
        'a'
    } else if d == 11 {
        'b'
    } else if d == 12 {
        'c'
    } else if d == 13 {
        'd'
    } else if d == 14 {
        'e'
    } else {
        'f'
    }
}

/// Append the JSON embedding of one character.
fn escape_into(out: &mut String, c: char)
    ensures
        final(out)@ == old(out)@ + escape_char(c),
{
    if c == '"' {
        push_char(out, '\\');
        push_char(out, '"');
    } else if c == '\\' {
        push_char(out, '\\');
        push_char(out, '\\');
    } else if c == '\x08' {
        push_char(out, '\\');
        push_char(out, 'b');
    } else if c == '\x0c' {
        push_char(out, '\\');
        push_char(out, 'f');
    } else if c == '\n' {
        push_char(out, '\\');
        push_char(out, 'n');
    } else if c == '\r' {
        push_char(out, '\\');
        push_char(out, 'r');
    } else if c == '\t' {
        push_char(out, '\\');
        push_char(out, 't');
    } else if (c as u32) < 32 {
        push_char(out, '\\');
        push_char(out, 'u');
        push_char(out, '0');
        push_char(out, '0');
        let h = hex_digit_char(c as u32 / 16);
        let l = hex_digit_char(c as u32 % 16);
        push_char(out, h);
        push_char(out, l);
    } else {
        push_char(out, c);
    }
    proof {
        assert(final(out)@ =~= old(out)@ + escape_char(c));
    }
}

/// Append the JSON embedding of a whole string.
fn append_escaped(out: &mut String, s: &str)
    ensures
        final(out)@ == old(out)@ + json_escaped(s@),
{
    let n = s.unicode_len();
    let mut i: usize = 0;
    while i < n
        invariant
            i <= n,
            n == s@.len(),
            out@ == old(out)@ + json_escaped_upto(s@, i as nat),
        decreases n - i,
    {
        let c = s.get_char(i);
        escape_into(out, c);
        proof {
            assert(out@ =~= old(out)@ + json_escaped_upto(s@, (i + 1) as nat));
        }
        i = i + 1;
    }
}

/// Append the decimal digits of `n`, most significant first.
fn append_decimal(out: &mut String, n: u16)
    ensures
        final(out)@ == old(out)@ + dec_digits(n as nat),
    decreases n,
{
    if n < 10 {
        let d = hex_digit_char(n as u32);
        push_char(out, d);
        proof {
            assert(final(out)@ =~= old(out)@ + dec_digits(n as nat));
        }
    } else {
        append_decimal(out, n / 10);
        let d = hex_digit_char((n % 10) as u32);
        push_char(out, d);
        proof {
            assert((n as nat) / 10 == (n / 10) as nat);
            assert((n as nat) % 10 == (n % 10) as nat);
            assert(final(out)@ =~= old(out)@ + dec_digits(n as nat));
        }
    }
}

impl PermissionStorage {
    /// The hook-configuration document handed to the external agent
    /// launcher at start-up: it registers one pre-invocation hook whose
    /// matcher covers every tool, running `python <hook_path> <port>` with
    /// a timeout of 300. The document is built directly and never fails.
    pub fn generate_hook_settings(hook_path: &str, port: u16) -> (r: Result<String, String>)
        ensures
            r is Ok,
            r->Ok_0@ == hook_settings_spec(hook_path@, port),
    {
        let mut out = String::new();
        out.append(
            "{\"hooks\":{\"PreToolUse\":[{\"matcher\":\"*\",\"hooks\":[{\"type\":\"command\",\"command\":\"python ",
        );
        append_escaped(&mut out, hook_path);
        out.append(" ");
        append_decimal(&mut out, port);
        out.append("\",\"timeout\":300}]}]}}");
        proof {
            assert(out@ =~= hook_settings_spec(hook_path@, port));
        }
        Ok(out)
    }
}

} // verus!
