//! The canonical cell escape and its exact inverse.
//!
//! Every header name and cell value is passed through `escape` before it is
//! quoted and joined: backslashes, double quotes and control characters are
//! escaped with a backslash.  `unescape` inverts it exactly.

use vstd::prelude::*;
use crate::chars::{chars_of, string_from_chars};

verus! {

/// One escaped character: the backslash and the double quote are preceded
/// by a backslash, the control characters with a conventional letter become
/// that two-letter escape, the remaining control characters keep their raw
/// form after a backslash, and every other character stands as itself.
pub open spec fn esc_char(c: char) -> Seq<char> {
    if c == '\\' {
        seq!['\\', '\\']
    } else if c == '"' {
        seq!['\\', '"']
    } else if c == '\u{7}' {
        seq!['\\', 'a']
    } else if c == '\u{8}' {
        seq!['\\', 'b']
    } else if c == '\t' {
        seq!['\\', 't']
    } else if c == '\n' {
        seq!['\\', 'n']
    } else if c == '\u{b}' {
        seq!['\\', 'v']
    } else if c == '\u{c}' {
        seq!['\\', 'f']
    } else if c == '\r' {
        seq!['\\', 'r']
    } else if (c as u32) < 32 {
        seq!['\\', c]
    } else {
        seq![c]
    }
}

/// The whole string, escaped character by character.
pub open spec fn escape_seq(s: Seq<char>) -> Seq<char>
    decreases s.len(),
{
    if s.len() == 0 {
        Seq::empty()
    } else {
        esc_char(s[0]) + escape_seq(s.drop_first())
    }
}

/// Escaping a concatenation escapes the parts.
pub proof fn lemma_escape_app(a: Seq<char>, b: Seq<char>)
    ensures
        escape_seq(a + b) == escape_seq(a) + escape_seq(b),
    decreases a.len(),
{
    if a.len() == 0 {
        assert(a + b =~= b);
        assert(escape_seq(a) + escape_seq(b) =~= escape_seq(b));
    } else {
        lemma_escape_app(a.drop_first(), b);
        assert((a + b).drop_first() =~= a.drop_first() + b);
        assert((a + b)[0] == a[0]);
        assert(esc_char(a[0]) + (escape_seq(a.drop_first()) + escape_seq(b)) =~= (esc_char(a[0])
            + escape_seq(a.drop_first())) + escape_seq(b));
    }
}

/// The character named by an escape letter: the letters `a b t n v f r`
/// stand for their control characters; any other character stands for
/// itself.
pub open spec fn unesc_code(c: char) -> char {
    if c == 'a' {
        '\u{7}'
    } else if c == 'b' {
        '\u{8}'
    } else if c == 't' {
        '\t'
    } else if c == 'n' {
        '\n'
    } else if c == 'v' {
        '\u{b}'
    } else if c == 'f' {
        '\u{c}'
    } else if c == 'r' {
        '\r'
    } else {
        c
    }
}

/// The inverse reading: a backslash takes the next character as an escape
/// code; a trailing lone backslash has no reading.
pub open spec fn unescape_seq(s: Seq<char>) -> Option<Seq<char>>
    decreases s.len(),
{
    if s.len() == 0 {
        Some(Seq::empty())
    } else if s[0] == '\\' {
        if s.len() == 1 {
            None
        } else {
            match unescape_seq(s.subrange(2, s.len() as int)) {
                Some(rest) => Some(seq![unesc_code(s[1])] + rest),
                None => None,
            }
        }
    } else {
        match unescape_seq(s.drop_first()) {
            Some(rest) => Some(seq![s[0]] + rest),
            None => None,
        }
    }
}

/// Round trip: unescaping an escaped string gives the string back, for
/// every string.
pub proof fn lemma_unescape_escape(s: Seq<char>)
    ensures
        unescape_seq(escape_seq(s)) == Some(s),
    decreases s.len(),
{
    if s.len() == 0 {
        assert(Seq::<char>::empty() =~= s);
    } else {
        lemma_unescape_escape(s.drop_first());
        let c = s[0];
        let e = esc_char(c);
        let rest = escape_seq(s.drop_first());
        let whole = e + rest;
        assert(escape_seq(s) == whole);
        if e.len() == 2 {
            assert(whole[0] == e[0] && whole[1] == e[1]);
            assert(whole[0] == '\\');
            assert(whole.len() >= 2);
            assert(whole.subrange(2, whole.len() as int) =~= rest);
            if c == '\\' {
                assert(e[1] == '\\' && unesc_code('\\') == '\\');
            } else if c == '"' {
                assert(e[1] == '"' && unesc_code('"') == '"');
            } else if c == '\u{7}' {
                assert(e[1] == 'a' && unesc_code('a') == '\u{7}');
            } else if c == '\u{8}' {
                assert(e[1] == 'b' && unesc_code('b') == '\u{8}');
            } else if c == '\t' {
                assert(e[1] == 't' && unesc_code('t') == '\t');
            } else if c == '\n' {
                assert(e[1] == 'n' && unesc_code('n') == '\n');
            } else if c == '\u{b}' {
                assert(e[1] == 'v' && unesc_code('v') == '\u{b}');
            } else if c == '\u{c}' {
                assert(e[1] == 'f' && unesc_code('f') == '\u{c}');
            } else if c == '\r' {
                assert(e[1] == 'r' && unesc_code('r') == '\r');
            } else {
                assert((c as u32) < 32);
                assert(e[1] == c && unesc_code(c) == c);
            }
            assert(unesc_code(whole[1]) == c);
            assert(seq![c] + s.drop_first() =~= s);
        } else {
            assert(e =~= seq![c]);
            assert(whole[0] == c);
            assert(c != '\\');
            assert(whole.drop_first() =~= rest);
            assert(seq![c] + s.drop_first() =~= s);
        }
    }
}

fn push_esc_char(c: char, out: &mut Vec<char>)
    ensures
        final(out)@ == old(out)@ + esc_char(c),
{
    if c == '\\' {
        out.push('\\');
        out.push('\\');
    } else if c == '"' {
        out.push('\\');
        out.push('"');
    } else if c == '\u{7}' {
        out.push('\\');
        out.push('a');
    } else if c == '\u{8}' {
        out.push('\\');
        out.push('b');
    } else if c == '\t' {
        out.push('\\');
        out.push('t');
    } else if c == '\n' {
        out.push('\\');
        out.push('n');
    } else if c == '\u{b}' {
        out.push('\\');
        out.push('v');
    } else if c == '\u{c}' {
        out.push('\\');
        out.push('f');
    } else if c == '\r' {
        out.push('\\');
        out.push('r');
    } else if (c as u32) < 32 {
        out.push('\\');
        out.push(c);
    } else {
        out.push(c);
    }
    proof {
        assert(out@ =~= old(out)@ + esc_char(c));
    }
}

/// Escapes a string of characters.
pub fn escape_chars(s: &Vec<char>) -> (r: Vec<char>)
    ensures
        r@ == escape_seq(s@),
{
    let mut out: Vec<char> = Vec::new();
    let mut i: usize = 0;
    proof {
        assert(out@ =~= escape_seq(s@.take(0int)));
    }
    while i < s.len()
        invariant
            i <= s.len(),
            out@ == escape_seq(s@.take(i as int)),
        decreases s.len() - i,
    {
        push_esc_char(s[i], &mut out);
        proof {
            let x = s@[i as int];
            assert(s@.take(i + 1) =~= s@.take(i as int) + seq![x]);
            lemma_escape_app(s@.take(i as int), seq![x]);
            assert(seq![x].drop_first() =~= Seq::<char>::empty());
            assert(escape_seq(seq![x]) == esc_char(seq![x][0]) + escape_seq(seq![x].drop_first()));
            assert(seq![x][0] == x);
            assert(esc_char(x) + escape_seq(Seq::<char>::empty()) =~= esc_char(x));
        }
        i = i + 1;
    }
    proof {
        assert(s@.take(s@.len() as int) =~= s@);
    }
    out
}

/// The canonical escape on a string.
pub fn escape(s: &String) -> (r: String)
    ensures
        r@ == escape_seq(s@),
{
    let cs = chars_of(s.as_str());
    let escaped = escape_chars(&cs);
    string_from_chars(&escaped)
}

fn unesc_code_exec(c: char) -> (r: char)
    ensures
        r == unesc_code(c),
{
    if c == 'a' {
        '\u{7}'
    } else if c == 'b' {
        '\u{8}'
    } else if c == 't' {
        '\t'
    } else if c == 'n' {
        '\n'
    } else if c == 'v' {
        '\u{b}'
    } else if c == 'f' {
        '\u{c}'
    } else if c == 'r' {
        '\r'
    } else {
        c
    }
}

/// Unescapes a string of characters; a trailing lone backslash has no
/// reading.
pub fn unescape_chars(s: &Vec<char>) -> (r: Option<Vec<char>>)
    ensures
        match r {
            Some(v) => unescape_seq(s@) == Some(v@),
            None => unescape_seq(s@) is None,
        },
{
    let mut out: Vec<char> = Vec::new();
    let mut i: usize = 0;
    proof {
        assert(s@.skip(0int) =~= s@);
        assert forall|t: Seq<char>| unescape_seq(s@.skip(0int)) == Some(t) implies unescape_seq(
            s@,
        ) == Some(out@ + t) by {
            assert(out@ + t =~= t);
        }
    }
    while i < s.len()
        invariant
            i <= s.len(),
            forall|t: Seq<char>|
                unescape_seq(s@.skip(i as int)) == Some(t) ==> unescape_seq(s@) == Some(out@ + t),
            unescape_seq(s@.skip(i as int)) is None ==> unescape_seq(s@) is None,
        decreases s.len() - i,
    {
        let ghost pre = out@;
        let ghost tail = s@.skip(i as int);
        let c = s[i];
        if c == '\\' {
            if i + 1 == s.len() {
                proof {
                    assert(tail.len() == 1 && tail[0] == '\\');
                    assert(unescape_seq(tail) is None);
                }
                return None;
            }
            let code = s[i + 1];
            let d = unesc_code_exec(code);
            out.push(d);
            proof {
                assert(tail[0] == '\\' && tail.len() >= 2);
                assert(tail.subrange(2, tail.len() as int) =~= s@.skip(i + 2));
                assert(tail[1] == code);
                assert forall|t: Seq<char>|
                    unescape_seq(s@.skip(i + 2)) == Some(t) implies unescape_seq(s@) == Some(
                    out@ + t,
                ) by {
                    assert(unescape_seq(tail) == Some(seq![unesc_code(code)] + t));
                    assert(pre + (seq![unesc_code(code)] + t) =~= out@ + t);
                }
            }
            i = i + 2;
        } else {
            out.push(c);
            proof {
                assert(tail[0] == c && c != '\\');
                assert(tail.drop_first() =~= s@.skip(i + 1));
                assert forall|t: Seq<char>|
                    unescape_seq(s@.skip(i + 1)) == Some(t) implies unescape_seq(s@) == Some(
                    out@ + t,
                ) by {
                    assert(unescape_seq(tail) == Some(seq![c] + t));
                    assert(pre + (seq![c] + t) =~= out@ + t);
                }
            }
            i = i + 1;
        }
    }
    proof {
        assert(s@.skip(s@.len() as int) =~= Seq::<char>::empty());
        assert(unescape_seq(s@) == Some(out@ + Seq::<char>::empty()));
        assert(out@ + Seq::<char>::empty() =~= out@);
    }
    Some(out)
}

/// The inverse of `escape` on a string.
pub fn unescape(s: &String) -> (r: Option<String>)
    ensures
        match r {
            Some(v) => unescape_seq(s@) == Some(v@),
            None => unescape_seq(s@) is None,
        },
{
    let cs = chars_of(s.as_str());
    match unescape_chars(&cs) {
        Some(v) => Some(string_from_chars(&v)),
        None => None,
    }
}

} // verus!
