//! The two-pass driver: SCAN discovers and merges the columns of every
//! record, then EMIT builds the header and one row per record against the
//! frozen column set.

use vstd::prelude::*;
use crate::chars::views_of;
use crate::codec::{byte_views, decode_input, decoded_of, lines_of, split_lines};
use crate::emit::{format_line, line_of, write_header};
use crate::errors::CsvError;
use crate::flatten::{
    construct_row, first_missing, get_names, leaves_of, lemma_names_are_leaf_names, names_of,
    row_of,
};
use crate::merge::{
    dedup_first, distinct, lemma_merge_app, lemma_merge_contains, lemma_merge_distinct, merge_seq,
};
use crate::merge::merge_vecs;
use crate::parse::{parse_of, parse_record};
use crate::value::Json;

verus! {

/// The frozen column set of a corpus: the merged names of every record,
/// in first-seen order.
pub open spec fn columns_of(records: Seq<Json>) -> Seq<Seq<char>>
    decreases records.len(),
{
    if records.len() == 0 {
        Seq::empty()
    } else {
        merge_seq(columns_of(records.drop_last()), names_of(Seq::empty(), records.last()))
    }
}

/// Every flattened name of a corpus, record by record, in order.
pub open spec fn all_names(records: Seq<Json>) -> Seq<Seq<char>>
    decreases records.len(),
{
    if records.len() == 0 {
        Seq::empty()
    } else {
        all_names(records.drop_last()) + names_of(Seq::empty(), records.last())
    }
}

/// The header holds each distinct flattened leaf path of the corpus
/// exactly once, in first-seen order: the column set is the first-seen
/// deduplication of all names, and a name stands in it exactly when some
/// record produces it.
pub proof fn lemma_columns_first_seen(records: Seq<Json>)
    ensures
        distinct(columns_of(records)),
        columns_of(records) == dedup_first(all_names(records)),
        forall|c: Seq<char>|
            columns_of(records).contains(c) <==> exists|i: int|
                0 <= i < records.len() && names_of(Seq::empty(), #[trigger] records[i]).contains(
                    c,
                ),
    decreases records.len(),
{
    if records.len() == 0 {
        assert(columns_of(records) == dedup_first(all_names(records)));
        assert forall|c: Seq<char>| !columns_of(records).contains(c) by {
        }
    } else {
        let head = records.drop_last();
        let v = records.last();
        let nv = names_of(Seq::empty(), v);
        lemma_columns_first_seen(head);
        lemma_merge_distinct(columns_of(head), nv);
        lemma_merge_app(Seq::empty(), all_names(head), nv);
        lemma_merge_contains(columns_of(head), nv);
        assert(columns_of(records) == dedup_first(all_names(records)));
        assert forall|c: Seq<char>|
            columns_of(records).contains(c) implies exists|i: int|
            0 <= i < records.len() && names_of(Seq::empty(), #[trigger] records[i]).contains(
                c,
            ) by {
            if columns_of(head).contains(c) {
                let i = choose|i: int|
                    0 <= i < head.len() && names_of(Seq::empty(), #[trigger] head[i]).contains(c);
                assert(records[i] == head[i]);
                assert(names_of(Seq::empty(), records[i]).contains(c));
            } else {
                assert(nv.contains(c));
                assert(records[records.len() - 1] == v);
                assert(names_of(Seq::empty(), records[records.len() - 1]).contains(c));
            }
        }
        assert forall|c: Seq<char>|
            (exists|i: int|
                0 <= i < records.len() && names_of(Seq::empty(), #[trigger] records[i]).contains(
                    c,
                )) implies columns_of(records).contains(c) by {
            let i = choose|i: int|
                0 <= i < records.len() && names_of(Seq::empty(), #[trigger] records[i]).contains(
                    c,
                );
            if i < records.len() - 1 {
                assert(head[i] == records[i]);
                assert(columns_of(head).contains(c));
            } else {
                assert(v == records[i]);
                assert(nv.contains(c));
            }
        }
    }
}

/// SCAN: the ordered, deduplicated union of every record's column names.
pub fn scan_columns(records: &Vec<Json>) -> (cols: Vec<String>)
    ensures
        views_of(cols@) == columns_of(records@),
{
    let mut cols: Vec<String> = Vec::new();
    let mut i: usize = 0;
    proof {
        assert(views_of(cols@) =~= Seq::<Seq<char>>::empty());
        assert(columns_of(records@.take(0int)) == Seq::<Seq<char>>::empty());
    }
    while i < records.len()
        invariant
            i <= records.len(),
            views_of(cols@) == columns_of(records@.take(i as int)),
        decreases records.len() - i,
    {
        let names = get_names(String::new(), &records[i]);
        cols = merge_vecs(cols, names);
        proof {
            assert(records@.take(i + 1).drop_last() =~= records@.take(i as int));
            assert(records@.take(i + 1).last() == records@[i as int]);
        }
        i = i + 1;
    }
    proof {
        assert(records@.take(records@.len() as int) =~= records@);
    }
    cols
}

/// Every leaf name of the record stands in the given columns.
pub open spec fn record_fits(cols: Seq<Seq<char>>, v: Json) -> bool {
    forall|k: int|
        0 <= k < leaves_of(Seq::empty(), v).len() ==> cols.contains(
            (#[trigger] leaves_of(Seq::empty(), v)[k]).0,
        )
}

/// EMIT: one line per record against the frozen columns; fails on the
/// first record with a leaf name outside them, naming that column.
pub fn emit_rows(cols: &Vec<String>, records: &Vec<Json>) -> (r: Result<Vec<String>, CsvError>)
    requires
        distinct(views_of(cols@)),
    ensures
        match r {
            Ok(lines) => {
                &&& forall|i: int|
                    0 <= i < records@.len() ==> record_fits(views_of(cols@), #[trigger] records@[i])
                &&& lines@.len() == records@.len()
                &&& forall|i: int|
                    0 <= i < records@.len() ==> (#[trigger] lines@[i])@ == line_of(
                        row_of(views_of(cols@), leaves_of(Seq::empty(), records@[i])),
                    )
            },
            Err(e) => {
                &&& e is SchemaMismatch
                &&& exists|i: int|
                    #![auto]
                    {
                        &&& 0 <= i < records@.len()
                        &&& (forall|m: int|
                            0 <= m < i ==> record_fits(views_of(cols@), #[trigger] records@[m]))
                        &&& !record_fits(views_of(cols@), records@[i])
                        &&& exists|k: int|
                            first_missing(
                                views_of(cols@),
                                leaves_of(Seq::empty(), records@[i]),
                                k,
                            ) && e->SchemaMismatch_column@ == leaves_of(
                                Seq::empty(),
                                records@[i],
                            )[k].0
                    }
            },
        },
{
    let mut lines: Vec<String> = Vec::new();
    let mut i: usize = 0;
    while i < records.len()
        invariant
            i <= records.len(),
            lines@.len() == i,
            distinct(views_of(cols@)),
            forall|m: int|
                0 <= m < i ==> record_fits(views_of(cols@), #[trigger] records@[m]),
            forall|m: int|
                0 <= m < i ==> (#[trigger] lines@[m])@ == line_of(
                    row_of(views_of(cols@), leaves_of(Seq::empty(), records@[m])),
                ),
        decreases records.len() - i,
    {
        match construct_row(cols, &records[i]) {
            Ok(row) => {
                let text = format_line(&row);
                lines.push(text);
            },
            Err(e) => {
                proof {
                    let k = choose|k: int|
                        #![auto]
                        first_missing(
                            views_of(cols@),
                            leaves_of(Seq::empty(), records@[i as int]),
                            k,
                        ) && e->SchemaMismatch_column@ == leaves_of(
                            Seq::empty(),
                            records@[i as int],
                        )[k].0;
                    assert(!record_fits(views_of(cols@), records@[i as int])) by {
                        assert(!views_of(cols@).contains(
                            leaves_of(Seq::empty(), records@[i as int])[k].0,
                        ));
                    }
                }
                return Err(e);
            },
        }
        i = i + 1;
    }
    Ok(lines)
}

/// The whole conversion of a parsed corpus: the header line, then one row
/// per record.  Construction cannot fail here: every leaf name a record
/// produces during EMIT stands in the columns SCAN merged from the same
/// records.
pub fn csv_lines(records: &Vec<Json>) -> (r: Vec<String>)
    ensures
        r@.len() == records@.len() + 1,
        r@[0]@ == line_of(columns_of(records@)),
        forall|i: int|
            1 <= i <= records@.len() ==> (#[trigger] r@[i])@ == line_of(
                row_of(columns_of(records@), leaves_of(Seq::empty(), records@[i - 1])),
            ),
{
    let cols = scan_columns(records);
    proof {
        lemma_columns_first_seen(records@);
    }
    let mut out: Vec<String> = Vec::new();
    let header = write_header(&cols);
    out.push(header);
    match emit_rows(&cols, records) {
        Ok(mut rows) => {
            let ghost pre = out@;
            let ghost rws = rows@;
            out.append(&mut rows);
            proof {
                assert(out@ =~= pre + rws);
            }
            out
        },
        Err(e) => {
            proof {
                let cs = views_of(cols@);
                let i = choose|i: int|
                    #![auto]
                    {
                        &&& 0 <= i < records@.len()
                        &&& (forall|m: int|
                            0 <= m < i ==> record_fits(cs, #[trigger] records@[m]))
                        &&& !record_fits(cs, records@[i])
                        &&& exists|k: int|
                            first_missing(cs, leaves_of(Seq::empty(), records@[i]), k)
                                && e->SchemaMismatch_column@ == leaves_of(
                                Seq::empty(),
                                records@[i],
                            )[k].0
                    };
                let lv = leaves_of(Seq::empty(), records@[i]);
                let k = choose|k: int| 0 <= k < lv.len() && !cs.contains(lv[k].0);
                assert(0 <= k < lv.len() && !cs.contains(lv[k].0)) by {
                    assert(!record_fits(cs, records@[i]));
                }
                lemma_names_are_leaf_names(Seq::empty(), records@[i]);
                let nm = names_of(Seq::empty(), records@[i]);
                assert(nm[k] == lv[k].0);
                assert(nm.contains(lv[k].0));
                assert(columns_of(records@).contains(lv[k].0));
                assert(false);
            }
            out
        },
    }
}

/// Parses every line into a record; the first line that does not parse is
/// fatal, and the error carries its 1-based line number.
pub fn parse_records(lines: &Vec<Vec<u8>>) -> (r: Result<Vec<Json>, CsvError>)
    ensures
        match r {
            Ok(records) => {
                &&& records@.len() == lines@.len()
                &&& forall|i: int|
                    0 <= i < lines@.len() ==> parse_of((#[trigger] lines@[i])@) == Some(
                        records@[i],
                    )
            },
            Err(e) => {
                &&& e is ParseError
                &&& exists|i: int|
                    #![auto]
                    0 <= i < lines@.len() && parse_of(lines@[i]@) is None && (forall|m: int|
                        0 <= m < i ==> parse_of((#[trigger] lines@[m])@) is Some)
                        && e->ParseError_line == i + 1
            },
        },
{
    let mut records: Vec<Json> = Vec::new();
    let mut i: usize = 0;
    while i < lines.len()
        invariant
            i <= lines.len(),
            records@.len() == i,
            forall|m: int|
                0 <= m < i ==> parse_of((#[trigger] lines@[m])@) == Some(records@[m]),
        decreases lines.len() - i,
    {
        match parse_record(&lines[i]) {
            Ok(v) => {
                records.push(v);
            },
            Err(cause) => {
                return Err(CsvError::ParseError { line: i + 1, cause });
            },
        }
        i = i + 1;
    }
    Ok(records)
}

/// The records a decoded corpus denotes, when every line parses.
pub open spec fn records_of(lines: Seq<Seq<u8>>) -> Seq<Json> {
    Seq::new(lines.len(), |i: int| parse_of(lines[i])->0)
}

/// Converts one raw input (plain, gzip or zstd) into CSV lines: the
/// header, then one line per record.  Fewer than four bytes or a failing
/// decode is an input error; a line that does not parse is a parse error
/// naming its line number; a schema mismatch cannot happen, as EMIT walks
/// the records SCAN walked.
pub fn csv_from_bytes(data: &Vec<u8>) -> (r: Result<Vec<String>, CsvError>)
    ensures
        decoded_of(data@) is None ==> r is Err && r->Err_0 is IoError,
        decoded_of(data@) is Some ==> {
            let ls = lines_of(decoded_of(data@)->0);
            &&& (r is Ok <==> forall|i: int|
                0 <= i < ls.len() ==> parse_of(#[trigger] ls[i]) is Some)
            &&& (r is Ok ==> {
                let records = records_of(ls);
                &&& r->Ok_0@.len() == records.len() + 1
                &&& r->Ok_0@[0]@ == line_of(columns_of(records))
                &&& forall|i: int|
                    1 <= i <= records.len() ==> (#[trigger] r->Ok_0@[i])@ == line_of(
                        row_of(columns_of(records), leaves_of(Seq::empty(), records[i - 1])),
                    )
            })
            &&& (r is Err ==> r->Err_0 is ParseError && exists|i: int|
                #![auto]
                0 <= i < ls.len() && parse_of(ls[i]) is None && (forall|m: int|
                    0 <= m < i ==> parse_of(ls[m]) is Some) && r->Err_0->ParseError_line == i
                    + 1)
        },
{
    let decoded = match decode_input(data) {
        Ok(b) => b,
        Err(e) => {
            return Err(e);
        },
    };
    let lines = split_lines(&decoded);
    let ghost ls = lines_of(decoded_of(data@)->0);
    proof {
        assert(byte_views(lines@) == ls);
        assert forall|i: int| 0 <= i < lines@.len() implies (#[trigger] lines@[i])@ == ls[i] by {
            assert(byte_views(lines@)[i] == lines@[i]@);
        }
    }
    let records = match parse_records(&lines) {
        Ok(rs) => rs,
        Err(e) => {
            return Err(e);
        },
    };
    proof {
        assert(records@ =~= records_of(ls));
    }
    Ok(csv_lines(&records))
}

} // verus!
