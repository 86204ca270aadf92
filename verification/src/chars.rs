//! Character-level helpers: converting between `String` and `Vec<char>`,
//! rendering numbers in decimal, and the view of a vector of strings.

use vstd::prelude::*;

verus! {

/// The views of a sequence of strings, each as its sequence of characters.
pub open spec fn views_of(v: Seq<String>) -> Seq<Seq<char>> {
    v.map_values(|s: String| s@)
}

pub proof fn lemma_views_push(v: Seq<String>, s: String)
    ensures
        views_of(v.push(s)) == views_of(v).push(s@),
{
    assert(views_of(v.push(s)) =~= views_of(v).push(s@));
}

/// Relies on `str::chars`: the iterator yields exactly the characters of the
/// string, in order.
#[verifier::external_body]
pub fn chars_of(s: &str) -> (r: Vec<char>)
    ensures
        r@ == s@,
{
    s.chars().collect()
}

/// Relies on `String`'s `FromIterator<char>`: collecting characters yields
/// their concatenation.
#[verifier::external_body]
pub fn string_from_chars(v: &Vec<char>) -> (r: String)
    ensures
        r@ == v@,
{
    v.iter().collect()
}

/// The decimal digit `d` (below ten) as a character.
pub open spec fn digit_char(d: nat) -> char {
    ((48 + d) as u8) as char
}

/// The decimal rendering of `n`, without a sign and without leading zeros
/// (a single zero for `n == 0`).
pub open spec fn dec_str(n: nat) -> Seq<char>
    decreases n,
{
    if n < 10 {
        seq![digit_char(n)]
    } else {
        dec_str(n / 10).push(digit_char(n % 10))
    }
}

fn push_dec(n: u64, out: &mut Vec<char>)
    ensures
        final(out)@ == old(out)@ + dec_str(n as nat),
    decreases n,
{
    if n >= 10 {
        push_dec(n / 10, out);
    }
    let d: u8 = (n % 10) as u8;
    out.push((48 + d) as char);
    proof {
        assert(out@ =~= old(out)@ + dec_str(n as nat));
    }
}

/// The decimal digits of `n`.
pub fn dec_chars(n: u64) -> (r: Vec<char>)
    ensures
        r@ == dec_str(n as nat),
{
    let mut out: Vec<char> = Vec::new();
    push_dec(n, &mut out);
    proof {
        assert(out@ =~= dec_str(n as nat));
    }
    out
}

} // verus!
