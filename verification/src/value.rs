//! The JSON value model and its textual rendering.
//!
//! A record is a tree of `Json` nodes.  Numbers carry the decimal text
//! the parser produced for them; the flattener never interprets it.

use vstd::prelude::*;
use crate::chars::{chars_of, string_from_chars};

verus! {

/// A JSON value: the explicit tagged union the flattener walks.
pub enum Json {
    Null,
    Bool(bool),
    Number(String),
    Str(String),
    Array(Vec<Json>),
    Object(Vec<(String, Json)>),
}

/// The hexadecimal digit `d` (below sixteen), lower case.
pub open spec fn hex_digit(d: nat) -> char {
    if d < 10 {
        ((48 + d) as u8) as char
    } else {
        ((87 + d) as u8) as char
    }
}

/// One character of a JSON string body as the serializer writes it:
/// the double quote (34), the backslash (92) and the named control
/// characters get a two-character escape, the remaining control characters
/// a `\u00..` escape.
pub open spec fn json_esc_char(c: char) -> Seq<char> {
    let u = c as u32;
    if u == 34 {
        seq!['\\', '"']
    } else if u == 92 {
        seq!['\\', '\\']
    } else if u == 8 {
        seq!['\\', 'b']
    } else if u == 9 {
        seq!['\\', 't']
    } else if u == 10 {
        seq!['\\', 'n']
    } else if u == 12 {
        seq!['\\', 'f']
    } else if u == 13 {
        seq!['\\', 'r']
    } else if u < 32 {
        seq!['\\', 'u', '0', '0', hex_digit((u / 16) as nat), hex_digit((u % 16) as nat)]
    } else {
        seq![c]
    }
}

/// A JSON string body, escaped character by character.
pub open spec fn json_esc(s: Seq<char>) -> Seq<char>
    decreases s.len(),
{
    if s.len() == 0 {
        Seq::empty()
    } else {
        json_esc(s.drop_last()) + json_esc_char(s.last())
    }
}

/// A JSON string token: the escaped body between double quotes.
pub open spec fn json_str(s: Seq<char>) -> Seq<char> {
    seq!['"'] + json_esc(s) + seq!['"']
}

/// The serialized form of a value, as one JSON text without whitespace.
pub open spec fn dump_of(v: Json) -> Seq<char>
    decreases v, 0int,
{
    match v {
        Json::Null => seq!['n', 'u', 'l', 'l'],
        Json::Bool(b) => if b {
            seq!['t', 'r', 'u', 'e']
        } else {
            seq!['f', 'a', 'l', 's', 'e']
        },
        Json::Number(t) => t@,
        Json::Str(s) => json_str(s@),
        Json::Array(es) => seq!['['] + dump_arr(es@, es@.len()) + seq![']'],
        Json::Object(es) => seq!['{'] + dump_obj(es@, es@.len()) + seq!['}'],
    }
}

/// The comma-joined serializations of the first `n` array elements.
pub open spec fn dump_arr(es: Seq<Json>, n: nat) -> Seq<char>
    decreases es, n,
{
    if 1 <= n <= es.len() {
        if n == 1 {
            dump_of(es[0])
        } else {
            dump_arr(es, (n - 1) as nat) + seq![','] + dump_of(es[n - 1])
        }
    } else {
        Seq::empty()
    }
}

/// The comma-joined `"key":value` pairs of the first `n` object entries.
pub open spec fn dump_obj(es: Seq<(String, Json)>, n: nat) -> Seq<char>
    decreases es, n,
{
    if 1 <= n <= es.len() {
        if n == 1 {
            json_str(es[0].0@) + seq![':'] + dump_of(es[0].1)
        } else {
            dump_obj(es, (n - 1) as nat) + seq![','] + json_str(es[n - 1].0@) + seq![':']
                + dump_of(es[n - 1].1)
        }
    } else {
        Seq::empty()
    }
}

/// The cell text of a leaf: strings contribute their bare contents and the
/// other scalars their JSON literal; a composite leaf (an array element that
/// is itself an array or object) is serialized as one opaque JSON text.
pub open spec fn text_of(v: Json) -> Seq<char> {
    match v {
        Json::Str(s) => s@,
        Json::Number(t) => t@,
        _ => dump_of(v),
    }
}

fn push_json_esc(s: &Vec<char>, out: &mut Vec<char>)
    ensures
        final(out)@ == old(out)@ + json_esc(s@),
{
    let mut i: usize = 0;
    proof {
        assert(out@ =~= out@ + json_esc(s@.take(0int)));
    }
    while i < s.len()
        invariant
            i <= s.len(),
            out@ == old(out)@ + json_esc(s@.take(i as int)),
        decreases s.len() - i,
    {
        let c = s[i];
        let u: u32 = c as u32;
        if u == 34 {
            out.push('\\');
            out.push('"');
        } else if u == 92 {
            out.push('\\');
            out.push('\\');
        } else if u == 8 {
            out.push('\\');
            out.push('b');
        } else if u == 9 {
            out.push('\\');
            out.push('t');
        } else if u == 10 {
            out.push('\\');
            out.push('n');
        } else if u == 12 {
            out.push('\\');
            out.push('f');
        } else if u == 13 {
            out.push('\\');
            out.push('r');
        } else if u < 32 {
            out.push('\\');
            out.push('u');
            out.push('0');
            out.push('0');
            let hi: u8 = (u / 16) as u8;
            let lo: u8 = (u % 16) as u8;
            out.push(if hi < 10 {
                (48 + hi) as char
            } else {
                (87 + hi) as char
            });
            out.push(if lo < 10 {
                (48 + lo) as char
            } else {
                (87 + lo) as char
            });
        } else {
            out.push(c);
        }
        proof {
            assert(s@.take(i + 1).drop_last() =~= s@.take(i as int));
            assert(s@.take(i + 1).last() == c);
            assert(out@ =~= old(out)@ + json_esc(s@.take(i + 1)));
        }
        i = i + 1;
    }
    proof {
        assert(s@.take(s@.len() as int) =~= s@);
    }
}

/// Serializes `v` as one JSON text.
pub fn dump(v: &Json) -> (r: Vec<char>)
    ensures
        r@ == dump_of(*v),
    decreases *v, 0int,
{
    let mut out: Vec<char> = Vec::new();
    match v {
        Json::Null => {
            out.push('n');
            out.push('u');
            out.push('l');
            out.push('l');
            proof {
                assert(out@ =~= dump_of(*v));
            }
        },
        Json::Bool(b) => {
            if *b {
                out.push('t');
                out.push('r');
                out.push('u');
                out.push('e');
            } else {
                out.push('f');
                out.push('a');
                out.push('l');
                out.push('s');
                out.push('e');
            }
            proof {
                assert(out@ =~= dump_of(*v));
            }
        },
        Json::Number(t) => {
            let mut cs = chars_of(t.as_str());
            out.append(&mut cs);
        },
        Json::Str(s) => {
            let cs = chars_of(s.as_str());
            out.push('"');
            push_json_esc(&cs, &mut out);
            out.push('"');
            proof {
                assert(out@ =~= dump_of(*v));
            }
        },
        Json::Array(es) => {
            out.push('[');
            let mut j: usize = 0;
            proof {
                assert(out@ =~= seq!['['] + dump_arr(es@, 0nat));
            }
            while j < es.len()
                invariant
                    j <= es.len(),
                    out@ == seq!['['] + dump_arr(es@, j as nat),
                    v is Array && v->Array_0 == *es,
                decreases es.len() - j,
            {
                if j > 0 {
                    out.push(',');
                }
                proof {
                    assert(decreases_to!(*v => *es));
                    assert(decreases_to!(*es => es@));
                    assert(decreases_to!(es@ => es@[j as int]));
                }
                let mut piece = dump(&es[j]);
                out.append(&mut piece);
                proof {
                    assert(out@ =~= seq!['['] + dump_arr(es@, (j + 1) as nat));
                }
                j = j + 1;
            }
            out.push(']');
            proof {
                assert(out@ =~= dump_of(*v));
            }
        },
        Json::Object(es) => {
            out.push('{');
            let mut j: usize = 0;
            proof {
                assert(out@ =~= seq!['{'] + dump_obj(es@, 0nat));
            }
            while j < es.len()
                invariant
                    j <= es.len(),
                    out@ == seq!['{'] + dump_obj(es@, j as nat),
                    v is Object && v->Object_0 == *es,
                decreases es.len() - j,
            {
                if j > 0 {
                    out.push(',');
                }
                let key = chars_of(es[j].0.as_str());
                out.push('"');
                push_json_esc(&key, &mut out);
                out.push('"');
                out.push(':');
                proof {
                    assert(decreases_to!(*v => *es));
                    assert(decreases_to!(*es => es@));
                    assert(decreases_to!(es@ => es@[j as int]));
                    assert(decreases_to!(es@[j as int] => es@[j as int].1));
                }
                let mut piece = dump(&es[j].1);
                out.append(&mut piece);
                proof {
                    assert(out@ =~= seq!['{'] + dump_obj(es@, (j + 1) as nat));
                }
                j = j + 1;
            }
            out.push('}');
            proof {
                assert(out@ =~= dump_of(*v));
            }
        },
    }
    out
}

/// The cell text of a leaf value, as `text_of` describes it.
pub fn stringify(v: &Json) -> (r: String)
    ensures
        r@ == text_of(*v),
{
    match v {
        Json::Str(s) => s.clone(),
        Json::Number(t) => t.clone(),
        _ => {
            let cs = dump(v);
            string_from_chars(&cs)
        },
    }
}

} // verus!
