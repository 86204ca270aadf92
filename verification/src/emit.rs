//! The CSV emitter: quoting, escaping and joining the fields of one line.

use vstd::prelude::*;
use crate::chars::{chars_of, string_from_chars, views_of};
use crate::escape::{escape_chars, escape_seq};

verus! {

/// A field as it stands in an output line: escaped, between double quotes.
pub open spec fn quoted_field(f: Seq<char>) -> Seq<char> {
    seq!['"'] + escape_seq(f) + seq!['"']
}

/// One output line: the quoted fields joined by commas, with no trailing
/// comma.
pub open spec fn line_of(fields: Seq<Seq<char>>) -> Seq<char>
    decreases fields.len(),
{
    if fields.len() == 0 {
        Seq::empty()
    } else if fields.len() == 1 {
        quoted_field(fields[0])
    } else {
        line_of(fields.drop_last()) + seq![','] + quoted_field(fields.last())
    }
}

/// Joins the given fields into one CSV line, each field escaped and
/// double-quoted.
pub fn format_line(fields: &Vec<String>) -> (r: String)
    ensures
        r@ == line_of(views_of(fields@)),
{
    let mut out: Vec<char> = Vec::new();
    let mut i: usize = 0;
    proof {
        assert(out@ =~= line_of(views_of(fields@).take(0int)));
    }
    while i < fields.len()
        invariant
            i <= fields.len(),
            out@ == line_of(views_of(fields@).take(i as int)),
        decreases fields.len() - i,
    {
        if i > 0 {
            out.push(',');
        }
        let cs = chars_of(fields[i].as_str());
        let mut escaped = escape_chars(&cs);
        out.push('"');
        out.append(&mut escaped);
        out.push('"');
        proof {
            let vs = views_of(fields@);
            assert(vs[i as int] == fields@[i as int]@);
            assert(vs.take(i + 1).drop_last() =~= vs.take(i as int));
            assert(vs.take(i + 1).last() == vs[i as int]);
            assert(out@ =~= line_of(vs.take(i + 1)));
        }
        i = i + 1;
    }
    proof {
        assert(views_of(fields@).take(fields@.len() as int) =~= views_of(fields@));
    }
    string_from_chars(&out)
}

/// The header line of the frozen column set.
pub fn write_header(cols: &Vec<String>) -> (r: String)
    ensures
        r@ == line_of(views_of(cols@)),
{
    format_line(cols)
}

} // verus!
