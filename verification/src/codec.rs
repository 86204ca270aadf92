//! Codec detection and decoding of the raw input bytes, and the split of
//! the decoded bytes into lines.

use vstd::prelude::*;
use crate::errors::CsvError;

verus! {

/// The three accepted input codecs.
#[derive(Clone, Copy, Debug, PartialEq, Eq, Structural)]
pub enum Codec {
    Plain,
    Gzip,
    Zstd,
}

/// The codec the leading bytes announce: zstd for `28 B5 2F FD`, gzip for
/// `1F 8B`, plain text otherwise.
pub open spec fn codec_of(b: Seq<u8>) -> Codec {
    if b.len() >= 4 && b[0] == 0x28 && b[1] == 0xb5 && b[2] == 0x2f && b[3] == 0xfd {
        Codec::Zstd
    } else if b.len() >= 2 && b[0] == 0x1f && b[1] == 0x8b {
        Codec::Gzip
    } else {
        Codec::Plain
    }
}

/// Classifies an input by its first four bytes; fewer than four bytes are
/// an input error, as for a truncated header.
pub fn classify(data: &Vec<u8>) -> (r: Result<Codec, CsvError>)
    ensures
        r is Ok <==> data@.len() >= 4,
        r is Ok ==> r->Ok_0 == codec_of(data@),
        r is Err ==> r->Err_0 is IoError,
{
    if data.len() < 4 {
        return Err(
            CsvError::IoError {
                msg: <String as vstd::string::StringExecFns>::from_str(
                    "fewer than 4 bytes of input",
                ),
            },
        );
    }
    if data[0] == 0x28 && data[1] == 0xb5 && data[2] == 0x2f && data[3] == 0xfd {
        Ok(Codec::Zstd)
    } else if data[0] == 0x1f && data[1] == 0x8b {
        Ok(Codec::Gzip)
    } else {
        Ok(Codec::Plain)
    }
}

/// What gzip decoding yields on given bytes, when it succeeds.
pub uninterp spec fn gunzip_of(b: Seq<u8>) -> Option<Seq<u8>>;

/// What zstd decoding yields on given bytes, when it succeeds.
pub uninterp spec fn unzstd_of(b: Seq<u8>) -> Option<Seq<u8>>;

/// Relies on flate2's `MultiGzDecoder`, which decodes a gzip file of one
/// or more members; the outcome is a function of the bytes alone.
#[verifier::external_body]
fn gunzip(data: &Vec<u8>) -> (r: Result<Vec<u8>, String>)
    ensures
        r is Ok <==> gunzip_of(data@) is Some,
        r is Ok ==> gunzip_of(data@) == Some(r->Ok_0@),
{
    let mut dec = flate2::read::MultiGzDecoder::new(&data[..]);
    let mut out = Vec::new();
    match std::io::Read::read_to_end(&mut dec, &mut out) {
        Ok(_) => Ok(out),
        Err(e) => Err(e.to_string()),
    }
}

/// Relies on zstd's `stream::decode_all`, which decodes a zstd stream; the
/// outcome is a function of the bytes alone.
#[verifier::external_body]
fn unzstd(data: &Vec<u8>) -> (r: Result<Vec<u8>, String>)
    ensures
        r is Ok <==> unzstd_of(data@) is Some,
        r is Ok ==> unzstd_of(data@) == Some(r->Ok_0@),
{
    match zstd::stream::decode_all(&data[..]) {
        Ok(out) => Ok(out),
        Err(e) => Err(e.to_string()),
    }
}

fn dup_bytes(src: &Vec<u8>) -> (r: Vec<u8>)
    ensures
        r@ == src@,
{
    let mut out: Vec<u8> = Vec::new();
    let mut q: usize = 0;
    while q < src.len()
        invariant
            q <= src.len(),
            out@ == src@.take(q as int),
        decreases src.len() - q,
    {
        out.push(src[q]);
        proof {
            assert(src@.take(q + 1) =~= src@.take(q as int).push(src@[q as int]));
        }
        q = q + 1;
    }
    proof {
        assert(src@.take(src@.len() as int) =~= src@);
    }
    out
}

/// The decoded byte stream of an input: the bytes themselves for plain
/// text, the decompressed bytes under gzip or zstd; nothing for a header
/// of fewer than four bytes or a failing decode.
pub open spec fn decoded_of(d: Seq<u8>) -> Option<Seq<u8>> {
    if d.len() < 4 {
        None
    } else {
        match codec_of(d) {
            Codec::Plain => Some(d),
            Codec::Gzip => gunzip_of(d),
            Codec::Zstd => unzstd_of(d),
        }
    }
}

/// Opens the input: detects the codec on the first four bytes and hands
/// back the decoded byte stream.
pub fn decode_input(data: &Vec<u8>) -> (r: Result<Vec<u8>, CsvError>)
    ensures
        r is Ok <==> decoded_of(data@) is Some,
        r is Ok ==> decoded_of(data@) == Some(r->Ok_0@),
        r is Err ==> r->Err_0 is IoError,
{
    let codec = match classify(data) {
        Ok(c) => c,
        Err(e) => {
            return Err(e);
        },
    };
    match codec {
        Codec::Plain => Ok(dup_bytes(data)),
        Codec::Gzip => match gunzip(data) {
            Ok(b) => Ok(b),
            Err(m) => Err(CsvError::IoError { msg: m }),
        },
        Codec::Zstd => match unzstd(data) {
            Ok(b) => Ok(b),
            Err(m) => Err(CsvError::IoError { msg: m }),
        },
    }
}

/// The views of a sequence of byte lines.
pub open spec fn byte_views(v: Seq<Vec<u8>>) -> Seq<Seq<u8>> {
    v.map_values(|x: Vec<u8>| x@)
}

/// How many bytes stand before the next newline (or the end).
pub open spec fn len_to_nl(b: Seq<u8>, p: int) -> nat
    decreases b.len() - p,
{
    if p < 0 || p >= b.len() {
        0
    } else if b[p] == 10 {
        0
    } else {
        1 + len_to_nl(b, p + 1)
    }
}

/// A line with a trailing carriage return removed, as a line-oriented
/// reader strips a CRLF ending.
pub open spec fn strip_cr(l: Seq<u8>) -> Seq<u8> {
    if l.len() > 0 && l.last() == 13 {
        l.drop_last()
    } else {
        l
    }
}

/// The lines of `b` from position `p` on: each line ends at a newline or
/// at the end of input; line terminators are not part of the lines.
pub open spec fn lines_from(b: Seq<u8>, p: int) -> Seq<Seq<u8>>
    decreases b.len() - p,
{
    if p < 0 || p >= b.len() {
        Seq::empty()
    } else {
        let l = len_to_nl(b, p) as int;
        let nxt = if p + l + 1 <= b.len() {
            p + l + 1
        } else {
            b.len() as int
        };
        seq![strip_cr(b.subrange(p, p + l))] + lines_from(b, nxt)
    }
}

/// The lines of a decoded byte stream.
pub open spec fn lines_of(b: Seq<u8>) -> Seq<Seq<u8>> {
    lines_from(b, 0)
}

proof fn lemma_len_to_nl(b: Seq<u8>, p: int, e: int)
    requires
        0 <= p <= e <= b.len(),
        forall|m: int| p <= m < e ==> b[m] != 10,
        e == b.len() || b[e] == 10,
    ensures
        len_to_nl(b, p) == e - p,
    decreases e - p,
{
    if p < e {
        lemma_len_to_nl(b, p + 1, e);
    }
}

/// Splits decoded bytes into lines: a newline ends each line, a carriage
/// return directly before it is stripped, and a last line needs no
/// newline.
pub fn split_lines(b: &Vec<u8>) -> (r: Vec<Vec<u8>>)
    ensures
        byte_views(r@) == lines_of(b@),
{
    let mut out: Vec<Vec<u8>> = Vec::new();
    let mut p: usize = 0;
    proof {
        assert(byte_views(out@) =~= Seq::<Seq<u8>>::empty());
        assert(Seq::<Seq<u8>>::empty() + lines_from(b@, 0int) =~= lines_from(b@, 0int));
    }
    while p < b.len()
        invariant
            p <= b.len(),
            byte_views(out@) + lines_from(b@, p as int) == lines_from(b@, 0int),
        decreases b.len() - p,
    {
        let mut e: usize = p;
        while e < b.len() && b[e] != 10
            invariant
                p <= e <= b.len(),
                forall|m: int| p <= m < e ==> b@[m] != 10,
            decreases b.len() - e,
        {
            e = e + 1;
        }
        proof {
            lemma_len_to_nl(b@, p as int, e as int);
        }
        let mut line: Vec<u8> = Vec::new();
        let mut q: usize = p;
        while q < e
            invariant
                p <= q <= e <= b@.len(),
                line@ == b@.subrange(p as int, q as int),
            decreases e - q,
        {
            line.push(b[q]);
            proof {
                assert(b@.subrange(p as int, q + 1) =~= b@.subrange(p as int, q as int).push(
                    b@[q as int],
                ));
            }
            q = q + 1;
        }
        if line.len() > 0 && line[line.len() - 1] == 13 {
            line.pop();
            proof {
                assert(line@ =~= strip_cr(b@.subrange(p as int, e as int)));
            }
        } else {
            proof {
                assert(line@ =~= strip_cr(b@.subrange(p as int, e as int)));
            }
        }
        let ghost pre = out@;
        out.push(line);
        let nextp: usize = if e < b.len() {
            e + 1
        } else {
            e
        };
        proof {
            assert(out@ =~= pre.push(out@.last()));
            assert(byte_views(out@) =~= byte_views(pre).push(out@.last()@));
            assert(lines_from(b@, p as int) == seq![strip_cr(b@.subrange(p as int, e as int))]
                + lines_from(b@, nextp as int));
            assert(byte_views(out@) + lines_from(b@, nextp as int) =~= byte_views(pre)
                + lines_from(b@, p as int));
        }
        p = nextp;
    }
    proof {
        assert(lines_from(b@, p as int) =~= Seq::<Seq<u8>>::empty());
        assert(byte_views(out@) + Seq::<Seq<u8>>::empty() =~= byte_views(out@));
    }
    out
}

} // verus!
