//! The path flattener: discovery of column names and construction of rows.
//!
//! One naming rule serves both modes: a scalar leaf at key `K` under prefix
//! `P` is named `P + K`; an array leaf of length `N` at key `K` yields the
//! names `P + K + "_" + i` for `i` below `N`, its elements never recursed
//! into; a nested object at key `K` is walked under the prefix
//! `P + K + "."`.

use vstd::prelude::*;
use crate::chars::{chars_of, dec_chars, dec_str, string_from_chars, views_of};
use crate::errors::CsvError;
use crate::merge::distinct;
use crate::value::{stringify, text_of, Json};

verus! {

/// The column name of one array slot.
pub open spec fn arr_name(base: Seq<char>, i: nat) -> Seq<char> {
    base + seq!['_'] + dec_str(i)
}

/// The column names of the first `n` slots of an array named `base`.
pub open spec fn arr_names(base: Seq<char>, n: nat) -> Seq<Seq<char>> {
    Seq::new(n, |i: int| arr_name(base, i as nat))
}

/// The ordered column names reachable from `v` under prefix `pfx`; only an
/// object contributes names.
pub open spec fn names_of(pfx: Seq<char>, v: Json) -> Seq<Seq<char>>
    decreases v, 0int,
{
    match v {
        Json::Object(es) => entries_names(pfx, es@, es@.len()),
        _ => Seq::empty(),
    }
}

/// The names contributed by the first `n` entries of an object.
pub open spec fn entries_names(pfx: Seq<char>, es: Seq<(String, Json)>, n: nat) -> Seq<
    Seq<char>,
>
    decreases es, n,
{
    if 1 <= n <= es.len() {
        entries_names(pfx, es, (n - 1) as nat) + entry_names(pfx, es[n - 1].0@, es[n - 1].1)
    } else {
        Seq::empty()
    }
}

/// The names contributed by one entry.
pub open spec fn entry_names(pfx: Seq<char>, key: Seq<char>, v: Json) -> Seq<Seq<char>>
    decreases v, 1int,
{
    match v {
        Json::Array(es) => arr_names(pfx + key, es@.len()),
        Json::Object(_) => names_of(pfx + key + seq!['.'], v),
        _ => seq![pfx + key],
    }
}

/// The leaves reachable from `v` under prefix `pfx`: each column name with
/// its cell text.
pub open spec fn leaves_of(pfx: Seq<char>, v: Json) -> Seq<(Seq<char>, Seq<char>)>
    decreases v, 0int,
{
    match v {
        Json::Object(es) => entries_leaves(pfx, es@, es@.len()),
        _ => Seq::empty(),
    }
}

/// The leaves contributed by the first `n` entries of an object.
pub open spec fn entries_leaves(pfx: Seq<char>, es: Seq<(String, Json)>, n: nat) -> Seq<
    (Seq<char>, Seq<char>),
>
    decreases es, n,
{
    if 1 <= n <= es.len() {
        entries_leaves(pfx, es, (n - 1) as nat) + entry_leaves(pfx, es[n - 1].0@, es[n - 1].1)
    } else {
        Seq::empty()
    }
}

/// The leaves of an array: one per slot, the element rendered as one
/// opaque text.
pub open spec fn arr_leaves(base: Seq<char>, es: Seq<Json>) -> Seq<(Seq<char>, Seq<char>)> {
    Seq::new(es.len(), |i: int| (arr_name(base, i as nat), text_of(es[i])))
}

/// The leaves contributed by one entry.
pub open spec fn entry_leaves(pfx: Seq<char>, key: Seq<char>, v: Json) -> Seq<
    (Seq<char>, Seq<char>),
>
    decreases v, 1int,
{
    match v {
        Json::Array(es) => arr_leaves(pfx + key, es@),
        Json::Object(_) => leaves_of(pfx + key + seq!['.'], v),
        _ => seq![(pfx + key, text_of(v))],
    }
}

/// Discovery and construction agree: the names are the leaves' names.
pub proof fn lemma_names_are_leaf_names(pfx: Seq<char>, v: Json)
    ensures
        names_of(pfx, v) == leaves_of(pfx, v).map_values(|p: (Seq<char>, Seq<char>)| p.0),
    decreases v, 0int,
{
    match v {
        Json::Object(es) => {
            lemma_entries_names_are_leaf_names(pfx, es@, es@.len());
        },
        _ => {
            assert(names_of(pfx, v) =~= leaves_of(pfx, v).map_values(
                |p: (Seq<char>, Seq<char>)| p.0,
            ));
        },
    }
}

proof fn lemma_entries_names_are_leaf_names(pfx: Seq<char>, es: Seq<(String, Json)>, n: nat)
    ensures
        entries_names(pfx, es, n) == entries_leaves(pfx, es, n).map_values(
            |p: (Seq<char>, Seq<char>)| p.0,
        ),
    decreases es, n,
{
    let f = |p: (Seq<char>, Seq<char>)| p.0;
    if 1 <= n <= es.len() {
        lemma_entries_names_are_leaf_names(pfx, es, (n - 1) as nat);
        lemma_entry_names_are_leaf_names(pfx, es[n - 1].0@, es[n - 1].1);
        assert(entries_names(pfx, es, n) =~= entries_leaves(pfx, es, n).map_values(f));
    } else {
        assert(entries_names(pfx, es, n) =~= entries_leaves(pfx, es, n).map_values(f));
    }
}

proof fn lemma_entry_names_are_leaf_names(pfx: Seq<char>, key: Seq<char>, v: Json)
    ensures
        entry_names(pfx, key, v) == entry_leaves(pfx, key, v).map_values(
            |p: (Seq<char>, Seq<char>)| p.0,
        ),
    decreases v, 1int,
{
    let f = |p: (Seq<char>, Seq<char>)| p.0;
    match v {
        Json::Array(es) => {
            assert(entry_names(pfx, key, v) =~= entry_leaves(pfx, key, v).map_values(f));
        },
        Json::Object(_) => {
            lemma_names_are_leaf_names(pfx + key + seq!['.'], v);
        },
        _ => {
            assert(entry_names(pfx, key, v) =~= entry_leaves(pfx, key, v).map_values(f));
        },
    }
}

fn append_chars(dst: &mut Vec<char>, src: &Vec<char>)
    ensures
        final(dst)@ == old(dst)@ + src@,
{
    let mut q: usize = 0;
    proof {
        assert(dst@ =~= old(dst)@ + src@.take(0int));
    }
    while q < src.len()
        invariant
            q <= src.len(),
            dst@ == old(dst)@ + src@.take(q as int),
        decreases src.len() - q,
    {
        dst.push(src[q]);
        proof {
            assert(src@.take(q + 1) =~= src@.take(q as int).push(src@[q as int]));
            assert(dst@ =~= old(dst)@ + src@.take(q + 1));
        }
        q = q + 1;
    }
    proof {
        assert(src@.take(src@.len() as int) =~= src@);
    }
}

fn dup_chars(src: &Vec<char>) -> (r: Vec<char>)
    ensures
        r@ == src@,
{
    let mut out: Vec<char> = Vec::new();
    append_chars(&mut out, src);
    proof {
        assert(Seq::<char>::empty() + src@ =~= src@);
    }
    out
}

fn push_names(pfx: &Vec<char>, obj: &Json, out: &mut Vec<String>)
    ensures
        views_of(final(out)@) == views_of(old(out)@) + names_of(pfx@, *obj),
    decreases *obj, 0int,
{
    let ghost base = views_of(old(out)@);
    match obj {
        Json::Object(es) => {
            let mut j: usize = 0;
            proof {
                assert(views_of(out@) =~= base + entries_names(pfx@, es@, 0nat));
            }
            while j < es.len()
                invariant
                    j <= es.len(),
                    views_of(out@) == base + entries_names(pfx@, es@, j as nat),
                    obj is Object && obj->Object_0 == *es,
                    base == views_of(old(out)@),
                decreases es.len() - j,
            {
                let ghost before = views_of(out@);
                let key = chars_of(es[j].0.as_str());
                let val = &es[j].1;
                proof {
                    assert(decreases_to!(*obj => *es));
                    assert(decreases_to!(*es => es@));
                    assert(decreases_to!(es@ => es@[j as int]));
                    assert(decreases_to!(es@[j as int] => es@[j as int].1));
                }
                match val {
                    Json::Array(elems) => {
                        let mut namebase = dup_chars(pfx);
                        append_chars(&mut namebase, &key);
                        let mut x: usize = 0;
                        proof {
                            assert(before + arr_names(namebase@, 0nat) =~= before);
                        }
                        while x < elems.len()
                            invariant
                                x <= elems.len(),
                                views_of(out@) == before + arr_names(namebase@, x as nat),
                                namebase@ == pfx@ + key@,
                                val is Array && val->Array_0 == *elems,
                            decreases elems.len() - x,
                        {
                            let mut name = dup_chars(&namebase);
                            name.push('_');
                            let mut digits = dec_chars(x as u64);
                            append_chars(&mut name, &digits);
                            let s = string_from_chars(&name);
                            let ghost pre = out@;
                            out.push(s);
                            proof {
                                crate::chars::lemma_views_push(pre, out@.last());
                                assert(out@ =~= pre.push(out@.last()));
                                assert(name@ =~= arr_name(namebase@, x as nat));
                                assert(arr_names(namebase@, (x + 1) as nat) =~= arr_names(
                                    namebase@,
                                    x as nat,
                                ).push(arr_name(namebase@, x as nat)));
                                assert(views_of(out@) =~= before + arr_names(
                                    namebase@,
                                    (x + 1) as nat,
                                ));
                            }
                            x = x + 1;
                        }
                        proof {
                            assert(entry_names(pfx@, key@, *val) == arr_names(
                                pfx@ + key@,
                                elems@.len(),
                            ));
                        }
                    },
                    Json::Object(_) => {
                        let mut p = dup_chars(pfx);
                        append_chars(&mut p, &key);
                        p.push('.');
                        proof {
                            assert(p@ =~= pfx@ + key@ + seq!['.']);
                        }
                        push_names(&p, val, out);
                    },
                    _ => {
                        let mut name = dup_chars(pfx);
                        append_chars(&mut name, &key);
                        let s = string_from_chars(&name);
                        let ghost pre = out@;
                        out.push(s);
                        proof {
                            crate::chars::lemma_views_push(pre, out@.last());
                            assert(out@ =~= pre.push(out@.last()));
                            assert(views_of(out@) =~= before + seq![pfx@ + key@]);
                            assert(entry_names(pfx@, key@, *val) =~= seq![pfx@ + key@]);
                        }
                    },
                }
                proof {
                    assert(es@[j as int].0@ == key@);
                    assert(entries_names(pfx@, es@, (j + 1) as nat) == entries_names(
                        pfx@,
                        es@,
                        j as nat,
                    ) + entry_names(pfx@, es@[j as int].0@, es@[j as int].1));
                    assert(views_of(out@) =~= base + entries_names(pfx@, es@, (j + 1) as nat));
                }
                j = j + 1;
            }
            proof {
                assert(names_of(pfx@, *obj) == entries_names(pfx@, es@, es@.len()));
            }
        },
        _ => {
            proof {
                assert(views_of(out@) =~= base + names_of(pfx@, *obj));
            }
        },
    }
}

/// Discovery mode: the ordered list of all column names reachable from
/// `obj`, starting from the given prefix.
pub fn get_names(pfx: String, obj: &Json) -> (r: Vec<String>)
    ensures
        views_of(r@) == names_of(pfx@, *obj),
{
    let pv = chars_of(pfx.as_str());
    let mut ret: Vec<String> = Vec::new();
    push_names(&pv, obj, &mut ret);
    proof {
        assert(views_of(Seq::<String>::empty()) =~= Seq::<Seq<char>>::empty());
        assert(Seq::<Seq<char>>::empty() + names_of(pfx@, *obj) =~= names_of(pfx@, *obj));
    }
    ret
}

/// The views of a sequence of leaves, name and text each as characters.
pub open spec fn leaf_views(v: Seq<(String, String)>) -> Seq<(Seq<char>, Seq<char>)> {
    v.map_values(|p: (String, String)| (p.0@, p.1@))
}

fn push_leaves(pfx: &Vec<char>, obj: &Json, out: &mut Vec<(String, String)>)
    ensures
        leaf_views(final(out)@) == leaf_views(old(out)@) + leaves_of(pfx@, *obj),
    decreases *obj, 0int,
{
    let ghost base = leaf_views(old(out)@);
    match obj {
        Json::Object(es) => {
            let mut j: usize = 0;
            proof {
                assert(leaf_views(out@) =~= base + entries_leaves(pfx@, es@, 0nat));
            }
            while j < es.len()
                invariant
                    j <= es.len(),
                    leaf_views(out@) == base + entries_leaves(pfx@, es@, j as nat),
                    obj is Object && obj->Object_0 == *es,
                    base == leaf_views(old(out)@),
                decreases es.len() - j,
            {
                let ghost before = leaf_views(out@);
                let key = chars_of(es[j].0.as_str());
                let val = &es[j].1;
                proof {
                    assert(decreases_to!(*obj => *es));
                    assert(decreases_to!(*es => es@));
                    assert(decreases_to!(es@ => es@[j as int]));
                    assert(decreases_to!(es@[j as int] => es@[j as int].1));
                }
                match val {
                    Json::Array(elems) => {
                        let mut namebase = dup_chars(pfx);
                        append_chars(&mut namebase, &key);
                        let mut x: usize = 0;
                        proof {
                            assert(before + arr_leaves(namebase@, elems@).take(0int) =~= before);
                        }
                        while x < elems.len()
                            invariant
                                x <= elems.len(),
                                leaf_views(out@) == before + arr_leaves(namebase@, elems@).take(
                                    x as int,
                                ),
                                namebase@ == pfx@ + key@,
                                val is Array && val->Array_0 == *elems,
                            decreases elems.len() - x,
                        {
                            let mut name = dup_chars(&namebase);
                            name.push('_');
                            let digits = dec_chars(x as u64);
                            append_chars(&mut name, &digits);
                            let s = string_from_chars(&name);
                            let text = stringify(&elems[x]);
                            let ghost pre = out@;
                            out.push((s, text));
                            proof {
                                assert(out@ =~= pre.push(out@.last()));
                                assert(leaf_views(out@) =~= leaf_views(pre).push(
                                    (out@.last().0@, out@.last().1@),
                                ));
                                assert(name@ =~= arr_name(namebase@, x as nat));
                                assert(arr_leaves(namebase@, elems@).take(x + 1) =~= arr_leaves(
                                    namebase@,
                                    elems@,
                                ).take(x as int).push(
                                    (arr_name(namebase@, x as nat), text_of(elems@[x as int])),
                                ));
                                assert(leaf_views(out@) =~= before + arr_leaves(
                                    namebase@,
                                    elems@,
                                ).take(x + 1));
                            }
                            x = x + 1;
                        }
                        proof {
                            assert(arr_leaves(namebase@, elems@).take(elems@.len() as int)
                                =~= arr_leaves(namebase@, elems@));
                            assert(entry_leaves(pfx@, key@, *val) == arr_leaves(
                                pfx@ + key@,
                                elems@,
                            ));
                        }
                    },
                    Json::Object(_) => {
                        let mut p = dup_chars(pfx);
                        append_chars(&mut p, &key);
                        p.push('.');
                        proof {
                            assert(p@ =~= pfx@ + key@ + seq!['.']);
                        }
                        push_leaves(&p, val, out);
                    },
                    _ => {
                        let mut name = dup_chars(pfx);
                        append_chars(&mut name, &key);
                        let s = string_from_chars(&name);
                        let text = stringify(val);
                        let ghost pre = out@;
                        out.push((s, text));
                        proof {
                            assert(out@ =~= pre.push(out@.last()));
                            assert(leaf_views(out@) =~= leaf_views(pre).push(
                                (out@.last().0@, out@.last().1@),
                            ));
                            assert(leaf_views(out@) =~= before + seq![
                                (pfx@ + key@, text_of(*val)),
                            ]);
                            assert(entry_leaves(pfx@, key@, *val) =~= seq![
                                (pfx@ + key@, text_of(*val)),
                            ]);
                        }
                    },
                }
                proof {
                    assert(es@[j as int].0@ == key@);
                    assert(entries_leaves(pfx@, es@, (j + 1) as nat) == entries_leaves(
                        pfx@,
                        es@,
                        j as nat,
                    ) + entry_leaves(pfx@, es@[j as int].0@, es@[j as int].1));
                    assert(leaf_views(out@) =~= base + entries_leaves(pfx@, es@, (j + 1) as nat));
                }
                j = j + 1;
            }
            proof {
                assert(leaves_of(pfx@, *obj) == entries_leaves(pfx@, es@, es@.len()));
            }
        },
        _ => {
            proof {
                assert(leaf_views(out@) =~= base + leaves_of(pfx@, *obj));
            }
        },
    }
}

/// Construction mode helpers: the cell a column receives from a record's
/// leaves is the text of the last leaf bearing that name, or empty.
pub open spec fn cell_of(name: Seq<char>, leaves: Seq<(Seq<char>, Seq<char>)>) -> Seq<char>
    decreases leaves.len(),
{
    if leaves.len() == 0 {
        Seq::empty()
    } else if leaves.last().0 == name {
        leaves.last().1
    } else {
        cell_of(name, leaves.drop_last())
    }
}

/// The row a record yields against frozen columns: one cell per column.
pub open spec fn row_of(cols: Seq<Seq<char>>, leaves: Seq<(Seq<char>, Seq<char>)>) -> Seq<
    Seq<char>,
> {
    Seq::new(cols.len(), |j: int| cell_of(cols[j], leaves))
}

/// The first leaf (if any) whose name is not a frozen column.
pub open spec fn first_missing(
    cols: Seq<Seq<char>>,
    leaves: Seq<(Seq<char>, Seq<char>)>,
    k: int,
) -> bool {
    &&& 0 <= k < leaves.len()
    &&& !cols.contains(leaves[k].0)
    &&& forall|m: int| 0 <= m < k ==> cols.contains(#[trigger] leaves[m].0)
}

fn find_index(cols: &Vec<String>, name: &String) -> (r: Option<usize>)
    ensures
        match r {
            Some(i) => i < cols@.len() && views_of(cols@)[i as int] == name@,
            None => !views_of(cols@).contains(name@),
        },
{
    let mut i: usize = 0;
    while i < cols.len()
        invariant
            i <= cols.len(),
            forall|j: int| 0 <= j < i ==> views_of(cols@)[j] != name@,
        decreases cols.len() - i,
    {
        if cols[i] == *name {
            proof {
                assert(views_of(cols@)[i as int] == cols@[i as int]@);
            }
            return Some(i);
        }
        proof {
            assert(views_of(cols@)[i as int] == cols@[i as int]@);
        }
        i = i + 1;
    }
    proof {
        if views_of(cols@).contains(name@) {
            let k = choose|k: int| 0 <= k < views_of(cols@).len() && views_of(cols@)[k] == name@;
            assert(views_of(cols@)[k] != name@);
        }
    }
    None
}

/// Construction mode: walks `obj` with the naming rule and places each
/// leaf's text at its column's position; columns no leaf names keep the
/// empty string.  Fails on the first leaf whose name is not a frozen
/// column, naming that column.
pub fn construct_row(cols: &Vec<String>, obj: &Json) -> (r: Result<Vec<String>, CsvError>)
    requires
        distinct(views_of(cols@)),
    ensures
        match r {
            Ok(row) => {
                &&& forall|k: int|
                    0 <= k < leaves_of(Seq::empty(), *obj).len() ==> views_of(cols@).contains(
                        (#[trigger] leaves_of(Seq::empty(), *obj)[k]).0,
                    )
                &&& views_of(row@) == row_of(views_of(cols@), leaves_of(Seq::empty(), *obj))
            },
            Err(e) => {
                &&& e is SchemaMismatch
                &&& exists|k: int|
                    #![auto]
                    first_missing(views_of(cols@), leaves_of(Seq::empty(), *obj), k)
                        && e->SchemaMismatch_column@ == leaves_of(Seq::empty(), *obj)[k].0
            },
        },
{
    let empty_prefix: Vec<char> = Vec::new();
    let mut leaves: Vec<(String, String)> = Vec::new();
    push_leaves(&empty_prefix, obj, &mut leaves);
    let ghost lv = leaves_of(Seq::empty(), *obj);
    proof {
        assert(empty_prefix@ =~= Seq::<char>::empty());
        assert(leaf_views(Seq::<(String, String)>::empty()) =~= Seq::<
            (Seq<char>, Seq<char>),
        >::empty());
        assert(Seq::<(Seq<char>, Seq<char>)>::empty() + lv =~= lv);
        assert(leaf_views(leaves@) == lv);
    }
    let ghost cs = views_of(cols@);
    let mut vals: Vec<String> = Vec::new();
    let mut q: usize = 0;
    while q < cols.len()
        invariant
            q <= cols.len(),
            vals@.len() == q,
            forall|j: int| 0 <= j < q ==> views_of(vals@)[j] == Seq::<char>::empty(),
        decreases cols.len() - q,
    {
        let ghost pre = vals@;
        vals.push(String::new());
        proof {
            crate::chars::lemma_views_push(pre, vals@.last());
            assert(vals@ =~= pre.push(vals@.last()));
        }
        q = q + 1;
    }
    proof {
        assert forall|j: int| 0 <= j < cs.len() implies views_of(vals@)[j] == cell_of(
            cs[j],
            lv.take(0int),
        ) by {
            assert(lv.take(0int).len() == 0);
        }
        assert(views_of(vals@) =~= row_of(cs, lv.take(0int)));
    }
    let mut k: usize = 0;
    while k < leaves.len()
        invariant
            k <= leaves.len(),
            vals@.len() == cols@.len(),
            cs == views_of(cols@),
            lv == leaf_views(leaves@),
            lv == leaves_of(Seq::empty(), *obj),
            distinct(cs),
            views_of(vals@) == row_of(cs, lv.take(k as int)),
            forall|m: int| 0 <= m < k ==> cs.contains((#[trigger] lv[m]).0),
        decreases leaves.len() - k,
    {
        proof {
            assert(lv[k as int] == (leaves@[k as int].0@, leaves@[k as int].1@));
        }
        match find_index(cols, &leaves[k].0) {
            Some(i) => {
                let text = leaves[k].1.clone();
                let ghost pre = vals@;
                vals.set(i, text);
                proof {
                    assert(cs.contains(lv[k as int].0)) by {
                        assert(cs[i as int] == lv[k as int].0);
                    }
                    assert(lv.take(k + 1).drop_last() =~= lv.take(k as int));
                    assert(lv.take(k + 1).last() == lv[k as int]);
                    assert forall|j: int| 0 <= j < cs.len() implies views_of(vals@)[j] == cell_of(
                        cs[j],
                        lv.take(k + 1),
                    ) by {
                        assert(views_of(pre)[j] == cell_of(cs[j], lv.take(k as int)));
                        if j == i {
                            assert(views_of(vals@)[j] == lv[k as int].1);
                        } else {
                            assert(cs[j] != lv[k as int].0) by {
                                if cs[j] == lv[k as int].0 {
                                    assert(cs[i as int] == cs[j]);
                                }
                            }
                            assert(views_of(vals@)[j] == views_of(pre)[j]);
                        }
                    }
                    assert(views_of(vals@) =~= row_of(cs, lv.take(k + 1)));
                }
            },
            None => {
                let column = leaves[k].0.clone();
                proof {
                    assert(first_missing(cs, lv, k as int));
                }
                return Err(CsvError::SchemaMismatch { column });
            },
        }
        k = k + 1;
    }
    proof {
        assert(lv.take(leaves@.len() as int) =~= lv);
    }
    Ok(vals)
}

} // verus!
