use vstd::prelude::*;
use vstd::utf8::{decode_utf8, valid_utf8};

use vstd::slice::{slice_subrange, slice_to_vec};
use vstd::string::StringSliceAdditionalSpecFns;

use crate::frame::{
    build_map, no_crlf, view_entries, view_frames, BulkString, Frame, RespArray, RespDouble,
    RespFrame, RespMap, RespNull, RespNullArray, RespNullBulkString, RespSet, SimpleError,
    SimpleString, CR, LF,
};
use crate::text::{lemma_crlf_from, lemma_slice_len, crlf_from, decimal_check, decimal_ok, first_crlf, in_i64, parse_i64, parse_int};

verus! {

/// Why no frame could be read.
#[derive(Debug, Clone, Copy, PartialEq, Eq)]
pub enum RespError {
    /// The bytes break the frame's structure (a missing CR LF, a line holding CR or LF,
    /// a boolean other than `t` or `f`).
    InvalidFrame,
    /// The byte that should name the frame's type names none.
    InvalidFrameType(u8),
    /// A declared length is negative, or no number that fits in 64 bits (then it reads `-1`).
    InvalidFrameLength(isize),
    /// The buffer ends before the frame does.
    NotComplete,
    /// An integer frame holds no 64-bit integer.
    ParseIntError,
    /// A text line is not UTF-8.
    Utf8Error,
    /// A double frame holds no decimal number.
    ParseFloatError,
}

/// The header line of an aggregate or a bulk string.
pub enum Header {
    Null,
    Count(nat),
}

/// The position of the CR that ends the line whose type byte stands at `i`.
pub open spec fn line_end(s: Seq<u8>, i: int) -> Option<int> {
    match crlf_from(s, i + 1) {
        Some(j) => if i < j && j + 2 <= s.len() { Some(j) } else { None },
        None => None,
    }
}

/// Text read from the line at `i`, with the position after the line.
pub open spec fn parse_text(s: Seq<u8>, i: int) -> Result<(Seq<char>, int), RespError> {
    match line_end(s, i) {
        None => Err(RespError::NotComplete),
        Some(j) => {
            let c = s.subrange(i + 1, j);
            if !no_crlf(c) {
                Err(RespError::InvalidFrame)
            } else if !valid_utf8(c) {
                Err(RespError::Utf8Error)
            } else {
                Ok((decode_utf8(c), j + 2))
            }
        },
    }
}

/// The length or count declared by the header line at `i`; `-1` stands for null when
/// `null_ok` holds.
pub open spec fn parse_header(s: Seq<u8>, i: int, null_ok: bool) -> Result<(Header, int), RespError> {
    match line_end(s, i) {
        None => Err(RespError::NotComplete),
        Some(j) => {
            let c = s.subrange(i + 1, j);
            if null_ok && c == seq![45u8, 49u8] {
                Ok((Header::Null, j + 2))
            } else {
                match parse_int(c) {
                    Some(v) => if !in_i64(v) {
                        Err(RespError::InvalidFrameLength(-1isize))
                    } else if v < 0 {
                        Err(RespError::InvalidFrameLength(#[verifier::truncate] (v as isize)))
                    } else {
                        Ok((Header::Count(v as nat), j + 2))
                    },
                    None => Err(RespError::InvalidFrameLength(-1isize)),
                }
            }
        },
    }
}

/// A double's text as a frame holds it: with a sign, and `e` for the exponent marker.
pub open spec fn canonical_decimal(c: Seq<u8>) -> Seq<u8> {
    let signed = if c[0] == 43 || c[0] == 45 { c } else { seq![43u8] + c };
    signed.map_values(|b: u8| if b == 69 { 101u8 } else { b })
}

/// The frame that starts at position `i` of `s`, with the position just past it.
pub open spec fn parse_at(s: Seq<u8>, i: int) -> Result<(Frame, int), RespError>
    decreases s.len() - i, 0nat, 0nat,
{
    if i < 0 || i >= s.len() {
        Err(RespError::NotComplete)
    } else {
        let t = s[i];
        if t == 43 || t == 45 {
            match parse_text(s, i) {
                Ok((x, e)) => Ok((if t == 43 { Frame::SimpleString(x) } else { Frame::Error(x) }, e)),
                Err(err) => Err(err),
            }
        } else if t == 58 {
            match line_end(s, i) {
                None => Err(RespError::NotComplete),
                Some(j) => match parse_int(s.subrange(i + 1, j)) {
                    Some(v) => if in_i64(v) {
                        Ok((Frame::Integer(v), j + 2))
                    } else {
                        Err(RespError::ParseIntError)
                    },
                    None => Err(RespError::ParseIntError),
                },
            }
        } else if t == 44 {
            match line_end(s, i) {
                None => Err(RespError::NotComplete),
                Some(j) => {
                    let c = s.subrange(i + 1, j);
                    if decimal_ok(c) {
                        Ok((Frame::Double(canonical_decimal(c)), j + 2))
                    } else {
                        Err(RespError::ParseFloatError)
                    }
                },
            }
        } else if t == 35 {
            if s.len() < i + 4 {
                Err(RespError::NotComplete)
            } else if s.subrange(i, i + 4) == seq![35u8, 116u8, 13u8, 10u8] {
                Ok((Frame::Boolean(true), i + 4))
            } else if s.subrange(i, i + 4) == seq![35u8, 102u8, 13u8, 10u8] {
                Ok((Frame::Boolean(false), i + 4))
            } else {
                Err(RespError::InvalidFrame)
            }
        } else if t == 95 {
            if s.len() < i + 3 {
                Err(RespError::NotComplete)
            } else if s.subrange(i, i + 3) == seq![95u8, 13u8, 10u8] {
                Ok((Frame::Null, i + 3))
            } else {
                Err(RespError::InvalidFrame)
            }
        } else if t == 36 {
            match parse_header(s, i, true) {
                Err(err) => Err(err),
                Ok((Header::Null, e)) => Ok((Frame::NullBulkString, e)),
                Ok((Header::Count(n), e)) => if s.len() < e + n + 2 {
                    Err(RespError::NotComplete)
                } else if s[e + n] != 13 || s[e + n + 1] != 10 {
                    Err(RespError::InvalidFrame)
                } else {
                    Ok((Frame::BulkString(s.subrange(e, e + n)), e + n + 2))
                },
            }
        } else if t == 42 || t == 126 {
            match parse_header(s, i, t == 42) {
                Err(err) => Err(err),
                Ok((Header::Null, e)) => Ok((Frame::NullArray, e)),
                Ok((Header::Count(k), e)) => match parse_items(s, e, k) {
                    Ok((xs, e2)) => Ok((if t == 42 { Frame::Array(xs) } else { Frame::RespSet(xs) }, e2)),
                    Err(err) => Err(err),
                },
            }
        } else if t == 37 {
            match parse_header(s, i, false) {
                Err(err) => Err(err),
                Ok((Header::Null, e)) => Err(RespError::InvalidFrameLength(-1isize)),
                Ok((Header::Count(k), e)) => match parse_pairs(s, e, k) {
                    Ok((ps, e2)) => Ok((Frame::RespMap(build_map(ps)), e2)),
                    Err(err) => Err(err),
                },
            }
        } else {
            Err(RespError::InvalidFrameType(t))
        }
    }
}

/// `k` frames, one after another, from position `j`.
pub open spec fn parse_items(s: Seq<u8>, j: int, k: nat) -> Result<(Seq<Frame>, int), RespError>
    decreases s.len() - j, 1nat, k,
{
    if k == 0 {
        Ok((seq![], j))
    } else if j < 0 || j > s.len() {
        Err(RespError::NotComplete)
    } else {
        match parse_at(s, j) {
            Err(err) => Err(err),
            // A frame ends after it starts and within `s`; saying so keeps the recursion
            // well-founded.
            Ok((f, e)) => if e < j || e > s.len() {
                Err(RespError::InvalidFrame)
            } else {
                match parse_items(s, e, (k - 1) as nat) {
                    Ok((fs, e2)) => Ok((seq![f] + fs, e2)),
                    Err(err) => Err(err),
                }
            },
        }
    }
}

/// `k` map entries from position `j`: each a simple-string key, then its value.
pub open spec fn parse_pairs(s: Seq<u8>, j: int, k: nat) -> Result<
    (Seq<(Seq<char>, Frame)>, int),
    RespError,
>
    decreases s.len() - j, 1nat, k,
{
    if k == 0 {
        Ok((seq![], j))
    } else if j < 0 || j >= s.len() {
        Err(RespError::NotComplete)
    } else if s[j] != 43 {
        Err(RespError::InvalidFrameType(s[j]))
    } else {
        match parse_text(s, j) {
            Err(err) => Err(err),
            Ok((key, e)) => match parse_at(s, e) {
                Err(err) => Err(err),
                // As for `parse_items`: a frame ends after it starts and within `s`.
                Ok((v, e2)) => if e2 < j || e2 > s.len() {
                    Err(RespError::InvalidFrame)
                } else {
                    match parse_pairs(s, e2, (k - 1) as nat) {
                        Ok((ps, e3)) => Ok((seq![(key, v)] + ps, e3)),
                        Err(err) => Err(err),
                    }
                },
            },
        }
    }
}

} // verus!

verus! {

/// Relies on `String::from_utf8`: `Some` exactly when the bytes are UTF-8, holding the
/// characters they encode.
#[verifier::external_body]
pub(crate) fn string_from_utf8(b: Vec<u8>) -> (r: Option<String>)
    ensures
        r is Some <==> valid_utf8(b@),
        r matches Some(s) ==> s@ == decode_utf8(b@),
{
    String::from_utf8(b).ok()
}

/// An executable outcome agrees with the mathematical one.
pub open spec fn agrees<T, U>(r: Result<(T, usize), RespError>, p: Result<(U, int), RespError>, same: spec_fn(T, U) -> bool) -> bool {
    match p {
        Ok((f, e)) => r matches Ok((g, e2)) && same(g, f) && e2 as int == e,
        Err(x) => r == Err::<(T, usize), RespError>(x),
    }
}

fn read_line_end(buf: &[u8], i: usize) -> (r: Option<usize>)
    requires
        i < buf@.len(),
    ensures
        match line_end(buf@, i as int) {
            Some(j) => r == Some(j as usize),
            None => r is None,
        },
        r matches Some(j) ==> i < j && j + 2 <= buf@.len(),
{
    proof {
        lemma_slice_len(buf);
    }
    let r = first_crlf(buf, i + 1);
    proof {
        let s = buf@;
        let ii = i as int;
        assert(crlf_from(s, ii + 1) == crlf_from(s, (i + 1) as int));
        lemma_crlf_from(s, ii + 1);
        match crlf_from(s, ii + 1) {
            Some(j) => {
                assert(r == Some(j as usize));
                assert(line_end(s, ii) == Some(j));
            },
            None => {},
        }
    }
    r
}

fn read_text(buf: &[u8], i: usize) -> (r: Result<(String, usize), RespError>)
    requires
        i < buf@.len(),
    ensures
        match parse_text(buf@, i as int) {
            Ok((x, e)) => r matches Ok((g, e2)) && g@ == x && e2 == e,
            Err(x) => r == Err::<(String, usize), RespError>(x),
        },
{
    proof {
        lemma_slice_len(buf);
    }
    let j = match read_line_end(buf, i) {
        Some(j) => j,
        None => return Err(RespError::NotComplete),
    };
    let ghost c = buf@.subrange(i + 1, j as int);
    let mut k = i + 1;
    while k < j
        invariant
            i + 1 <= k <= j,
            j <= buf@.len(),
            c == buf@.subrange(i + 1, j as int),
            line_end(buf@, i as int) == Some(j as int),
            forall|m: int| 0 <= m < k - i - 1 ==> c[m] != CR && c[m] != LF,
        decreases j - k,
    {
        if buf[k] == CR || buf[k] == LF {
            assert(c[k - i - 1] == buf[k as int]);
            return Err(RespError::InvalidFrame);
        }
        k += 1;
    }
    assert(no_crlf(c));
    let v = slice_to_vec(slice_subrange(buf, i + 1, j));
    match string_from_utf8(v) {
        Some(s) => Ok((s, j + 2)),
        None => Err(RespError::Utf8Error),
    }
}

fn read_header(buf: &[u8], i: usize, null_ok: bool) -> (r: Result<(Option<u64>, usize), RespError>)
    requires
        i < buf@.len(),
    ensures
        match parse_header(buf@, i as int, null_ok) {
            Ok((Header::Null, e)) => r == Ok::<(Option<u64>, usize), RespError>((None, e as usize)),
            Ok((Header::Count(n), e)) => r == Ok::<(Option<u64>, usize), RespError>((Some(n as u64), e as usize)),
            Err(x) => r == Err::<(Option<u64>, usize), RespError>(x),
        },
        r matches Ok((h, e)) ==> i < e <= buf@.len() && (h matches Some(n) ==> n <= i64::MAX),
{
    proof {
        lemma_slice_len(buf);
    }
    let j = match read_line_end(buf, i) {
        Some(j) => j,
        None => return Err(RespError::NotComplete),
    };
    let ghost c = buf@.subrange(i + 1, j as int);
    if null_ok && j == i + 3 && buf[i + 1] == 45 && buf[i + 2] == 49 {
        assert(c =~= seq![45u8, 49u8]);
        return Ok((None, j + 2));
    }
    assert(null_ok ==> c != seq![45u8, 49u8]) by {
        if null_ok && c == seq![45u8, 49u8] {
            assert(c.len() == 2);
            assert(buf[i + 1] == c[0]);
            assert(buf[i + 2] == c[1]);
        }
    }
    match parse_i64(buf, i + 1, j) {
        None => Err(RespError::InvalidFrameLength(-1isize)),
        Some(v) => if v < 0 {
            Err(RespError::InvalidFrameLength(#[verifier::truncate] (v as isize)))
        } else {
            Ok((Some(v as u64), j + 2))
        },
    }
}

fn canonical_double(buf: &[u8], from: usize, to: usize) -> (r: Vec<u8>)
    requires
        from < to <= buf@.len(),
    ensures
        r@ == canonical_decimal(buf@.subrange(from as int, to as int)),
{
    let ghost c = buf@.subrange(from as int, to as int);
    let ghost signed = if c[0] == 43 || c[0] == 45 { c } else { seq![43u8] + c };
    let mut out: Vec<u8> = Vec::new();
    if buf[from] != 43 && buf[from] != 45 {
        out.push(43);
    }
    let ghost lead: int = if c[0] == 43 || c[0] == 45 { 0 } else { 1 };
    let mut k = from;
    while k < to
        invariant
            from <= k <= to,
            to <= buf@.len(),
            c == buf@.subrange(from as int, to as int),
            signed == if c[0] == 43 || c[0] == 45 { c } else { seq![43u8] + c },
            lead == if c[0] == 43 || c[0] == 45 { 0int } else { 1int },
            out@ == signed.subrange(0, lead + (k - from)).map_values(
                |b: u8| if b == 69 { 101u8 } else { b },
            ),
        decreases to - k,
    {
        let b = buf[k];
        assert(signed[lead + (k - from)] == b);
        out.push(if b == 69 { 101 } else { b });
        assert(signed.subrange(0, lead + (k + 1 - from)) =~= signed.subrange(0, lead + (k - from)).push(b));
        k += 1;
    }
    assert(signed.subrange(0, lead + (k - from)) =~= signed);
    out
}

/// The frame that starts at `buf[i]`, with the position just past it.
pub fn read_frame(buf: &[u8], i: usize) -> (r: Result<(RespFrame, usize), RespError>)
    ensures
        agrees(r, parse_at(buf@, i as int), |g: RespFrame, f: Frame| g@ == f),
        r matches Ok((g, e)) ==> i < e <= buf@.len(),
    decreases buf@.len() - i, 0nat, 0nat,
{
    if i >= buf.len() {
        return Err(RespError::NotComplete);
    }
    let t = buf[i];
    if t == 43 || t == 45 {
        match read_text(buf, i) {
            Ok((x, e)) => Ok((if t == 43 { RespFrame::SimpleString(SimpleString(x)) } else { RespFrame::Error(SimpleError(x)) }, e)),
            Err(err) => Err(err),
        }
    } else if t == 58 {
        match read_line_end(buf, i) {
            None => Err(RespError::NotComplete),
            Some(j) => match parse_i64(buf, i + 1, j) {
                Some(v) => Ok((RespFrame::Integer(v), j + 2)),
                None => Err(RespError::ParseIntError),
            },
        }
    } else if t == 44 {
        match read_line_end(buf, i) {
            None => Err(RespError::NotComplete),
            Some(j) => if decimal_check(buf, i + 1, j) {
                Ok((RespFrame::Double(RespDouble(canonical_double(buf, i + 1, j))), j + 2))
            } else {
                Err(RespError::ParseFloatError)
            },
        }
    } else if t == 35 {
        if buf.len() - i < 4 {
            Err(RespError::NotComplete)
        } else {
            let ghost w = buf@.subrange(i as int, i + 4);
            if (buf[i + 1] == 116 || buf[i + 1] == 102) && buf[i + 2] == CR && buf[i + 3] == LF {
                assert(w =~= seq![35u8, buf[i + 1], 13u8, 10u8]);
                Ok((RespFrame::Boolean(buf[i + 1] == 116), i + 4))
            } else {
                assert(w[1] == buf[i + 1] && w[2] == buf[i + 2] && w[3] == buf[i + 3]);
                Err(RespError::InvalidFrame)
            }
        }
    } else if t == 95 {
        if buf.len() - i < 3 {
            Err(RespError::NotComplete)
        } else {
            let ghost w = buf@.subrange(i as int, i + 3);
            if buf[i + 1] == CR && buf[i + 2] == LF {
                assert(w =~= seq![95u8, 13u8, 10u8]);
                Ok((RespFrame::Null(RespNull), i + 3))
            } else {
                assert(w[1] == buf[i + 1] && w[2] == buf[i + 2]);
                Err(RespError::InvalidFrame)
            }
        }
    } else if t == 36 {
        match read_header(buf, i, true) {
            Err(err) => Err(err),
            Ok((None, e)) => Ok((RespFrame::NullBulkString(RespNullBulkString), e)),
            Ok((Some(n), e)) => {
                if ((buf.len() - e) as u64) < n + 2 {
                    Err(RespError::NotComplete)
                } else {
                    let n = n as usize;
                    if buf[e + n] != CR || buf[e + n + 1] != LF {
                        Err(RespError::InvalidFrame)
                    } else {
                        let data = slice_to_vec(slice_subrange(buf, e, e + n));
                        Ok((RespFrame::BulkString(BulkString(data)), e + n + 2))
                    }
                }
            },
        }
    } else if t == 42 || t == 126 {
        match read_header(buf, i, t == 42) {
            Err(err) => Err(err),
            Ok((None, e)) => Ok((RespFrame::NullArray(RespNullArray), e)),
            Ok((Some(k), e)) => match read_items(buf, e, k) {
                Ok((xs, e2)) => Ok((if t == 42 { RespFrame::Array(RespArray(xs)) } else { RespFrame::RespSet(RespSet(xs)) }, e2)),
                Err(err) => Err(err),
            },
        }
    } else if t == 37 {
        match read_header(buf, i, false) {
            Err(err) => Err(err),
            Ok((None, e)) => Err(RespError::InvalidFrameLength(-1isize)),
            Ok((Some(k), e)) => match read_pairs(buf, e, k) {
                Ok((m, e2)) => Ok((RespFrame::RespMap(m), e2)),
                Err(err) => Err(err),
            },
        }
    } else {
        Err(RespError::InvalidFrameType(t))
    }
}

fn read_items(buf: &[u8], j: usize, k: u64) -> (r: Result<(Vec<RespFrame>, usize), RespError>)
    requires
        j <= buf@.len(),
    ensures
        agrees(r, parse_items(buf@, j as int, k as nat), |g: Vec<RespFrame>, f: Seq<Frame>| view_frames(g@) == f),
        r matches Ok((g, e)) ==> j <= e <= buf@.len(),
    decreases buf@.len() - j, 1nat, k,
{
    let ghost s = buf@;
    let mut items: Vec<RespFrame> = Vec::new();
    let mut pos = j;
    let mut n: u64 = 0;
    assert(view_frames(items@) + Seq::<Frame>::empty() =~= Seq::<Frame>::empty());
    while n < k
        invariant
            j <= pos <= buf@.len(),
            n <= k,
            s == buf@,
            parse_items(s, j as int, k as nat) == match parse_items(s, pos as int, (k - n) as nat) {
                Ok((fs, e)) => Ok::<(Seq<Frame>, int), RespError>((view_frames(items@) + fs, e)),
                Err(x) => Err(x),
            },
        decreases k - n,
    {
        match read_frame(buf, pos) {
            Err(err) => return Err(err),
            Ok((f, e)) => {
                let ghost before = items@;
                items.push(f);
                proof {
                    assert(view_frames(items@) =~= view_frames(before) + seq![f@]);
                    match parse_items(s, e as int, (k - n - 1) as nat) {
                        Ok((fs, e3)) => {
                            assert(view_frames(before) + (seq![f@] + fs) =~= view_frames(items@) + fs);
                        },
                        Err(x) => {},
                    }
                }
                pos = e;
                n += 1;
            },
        }
    }
    Ok((items, pos))
}

fn read_pairs(buf: &[u8], j: usize, k: u64) -> (r: Result<(RespMap, usize), RespError>)
    requires
        j <= buf@.len(),
    ensures
        agrees(r, parse_pairs(buf@, j as int, k as nat), |g: RespMap, ps: Seq<(Seq<char>, Frame)>| g.entries_view() == build_map(ps)),
        r matches Ok((g, e)) ==> j <= e <= buf@.len(),
    decreases buf@.len() - j, 1nat, k,
{
    let ghost s = buf@;
    let mut map = RespMap::new();
    let ghost mut done: Seq<(Seq<char>, Frame)> = Seq::empty();
    let mut pos = j;
    let mut n: u64 = 0;
    assert(done + Seq::<(Seq<char>, Frame)>::empty() =~= done);
    assert(map.entries_view() =~= build_map(done));
    while n < k
        invariant
            j <= pos <= buf@.len(),
            n <= k,
            s == buf@,
            map.entries_view() == build_map(done),
            parse_pairs(s, j as int, k as nat) == match parse_pairs(s, pos as int, (k - n) as nat) {
                Ok((ps, e)) => Ok::<(Seq<(Seq<char>, Frame)>, int), RespError>((done + ps, e)),
                Err(x) => Err(x),
            },
        decreases k - n,
    {
        if pos >= buf.len() {
            return Err(RespError::NotComplete);
        }
        if buf[pos] != 43 {
            return Err(RespError::InvalidFrameType(buf[pos]));
        }
        let (key, e) = match read_text(buf, pos) {
            Err(err) => return Err(err),
            Ok(p) => p,
        };
        let (value, e2) = match read_frame(buf, e) {
            Err(err) => return Err(err),
            Ok(p) => p,
        };
        let ghost entry = (key@, value@);
        map.insert(key, value);
        proof {
            let d2 = done.push(entry);
            assert(d2.drop_last() =~= done);
            match parse_pairs(s, e2 as int, (k - n - 1) as nat) {
                Ok((ps, e3)) => {
                    assert(done + (seq![entry] + ps) =~= d2 + ps);
                },
                Err(x) => {},
            }
            done = d2;
        }
        pos = e2;
        n += 1;
    }
    Ok((map, pos))
}

} // verus!

verus! {

/// Where the line at the front of `s` ends (the position of its CR), when `s` starts with
/// `p` and holds the whole line.
pub open spec fn simple_line(s: Seq<u8>, p: Seq<u8>) -> Result<int, RespError> {
    if s.len() < p.len() + 2 {
        Err(RespError::NotComplete)
    } else if s.subrange(0, p.len() as int) != p {
        Err(RespError::InvalidFrameType(s[0]))
    } else {
        match crlf_from(s, p.len() as int) {
            Some(j) => Ok(j),
            None => Err(RespError::NotComplete),
        }
    }
}

/// The line end, with the length or count that the line at the front of `s` declares.
pub open spec fn declared_length(s: Seq<u8>, p: Seq<u8>) -> Result<(int, nat), RespError> {
    match simple_line(s, p) {
        Err(e) => Err(e),
        Ok(j) => match parse_int(s.subrange(p.len() as int, j)) {
            Some(v) => if !in_i64(v) || v > usize::MAX {
                Err(RespError::InvalidFrameLength(-1isize))
            } else if v < 0 {
                Err(RespError::InvalidFrameLength(#[verifier::truncate] (v as isize)))
            } else {
                Ok((j, v as nat))
            },
            None => Err(RespError::InvalidFrameLength(-1isize)),
        },
    }
}

/// The position of the CR that ends the line at the front of `buf`, which starts with
/// `prefix`.
pub fn extract_simple_frame_data(buf: &[u8], prefix: &str) -> (r: Result<usize, RespError>)
    ensures
        match simple_line(buf@, prefix.spec_bytes()) {
            Ok(j) => r == Ok::<usize, RespError>(j as usize) && prefix.spec_bytes().len() <= j && j + 2
                <= buf@.len(),
            Err(e) => r == Err::<usize, RespError>(e),
        },
{
    let p = prefix.as_bytes();
    let ghost pb = p@;
    if buf.len() < 2 || buf.len() - 2 < p.len() {
        return Err(RespError::NotComplete);
    }
    let mut i: usize = 0;
    while i < p.len()
        invariant
            i <= p@.len(),
            p@ == prefix.spec_bytes(),
            p@.len() + 2 <= buf@.len(),
            forall|m: int| 0 <= m < i ==> buf@[m] == p@[m],
        decreases p.len() - i,
    {
        if buf[i] != p[i] {
            assert(buf@.subrange(0, p@.len() as int)[i as int] != p@[i as int]);
            return Err(RespError::InvalidFrameType(buf[0]));
        }
        i += 1;
    }
    assert(buf@.subrange(0, p@.len() as int) =~= p@);
    proof {
        lemma_crlf_from(buf@, p@.len() as int);
    }
    match first_crlf(buf, p.len()) {
        Some(j) => Ok(j),
        None => Err(RespError::NotComplete),
    }
}

/// The line end and the length that the line at the front of `buf` declares after `prefix`.
pub fn parse_length(buf: &[u8], prefix: &str) -> (r: Result<(usize, usize), RespError>)
    ensures
        match declared_length(buf@, prefix.spec_bytes()) {
            Ok((j, n)) => r == Ok::<(usize, usize), RespError>((j as usize, n as usize)),
            Err(e) => r == Err::<(usize, usize), RespError>(e),
        },
        r matches Ok((j, n)) ==> j + 2 <= buf@.len(),
{
    let end = match extract_simple_frame_data(buf, prefix) {
        Ok(end) => end,
        Err(e) => return Err(e),
    };
    proof {
        lemma_slice_len(buf);
    }
    let start = prefix.as_bytes().len();
    match parse_i64(buf, start, end) {
        None => Err(RespError::InvalidFrameLength(-1isize)),
        Some(v) => if v < 0 {
            Err(RespError::InvalidFrameLength(#[verifier::truncate] (v as isize)))
        } else if v as u64 > usize::MAX as u64 {
            Err(RespError::InvalidFrameLength(-1isize))
        } else {
            Ok((end, v as usize))
        },
    }
}

/// What the whole of an aggregate takes when its header line ends at `end` and declares
/// `len` items: frames after `*` or `~`, key and value pairs after `%`.
pub open spec fn total_length(s: Seq<u8>, end: int, len: nat, p: Seq<u8>) -> Result<int, RespError> {
    if end + 2 > s.len() {
        Err(RespError::NotComplete)
    } else if p == seq![42u8] || p == seq![126u8] {
        match parse_items(s, end + 2, len) {
            Ok((_, e)) => Ok(e),
            Err(x) => Err(x),
        }
    } else if p == seq![37u8] {
        match parse_pairs(s, end + 2, len) {
            Ok((_, e)) => Ok(e),
            Err(x) => Err(x),
        }
    } else {
        Err(RespError::InvalidFrameType(if p.len() > 0 { p[0] } else { 0 }))
    }
}

/// How many bytes the aggregate at the front of `buf` takes, its header line ending at `end`
/// and declaring `len` items.
pub fn calc_total_length(buf: &[u8], end: usize, len: usize, prefix: &str) -> (r: Result<usize, RespError>)
    ensures
        match total_length(buf@, end as int, len as nat, prefix.spec_bytes()) {
            Ok(e) => r == Ok::<usize, RespError>(e as usize),
            Err(x) => r == Err::<usize, RespError>(x),
        },
{
    if end > buf.len() || buf.len() - end < 2 {
        return Err(RespError::NotComplete);
    }
    let p = prefix.as_bytes();
    if p.len() == 1 && (p[0] == 42 || p[0] == 126) {
        assert(p@ =~= seq![p@[0]]);
        match read_items(buf, end + 2, len as u64) {
            Ok((_, e)) => Ok(e),
            Err(x) => Err(x),
        }
    } else if p.len() == 1 && p[0] == 37 {
        assert(p@ =~= seq![37u8]);
        match read_pairs(buf, end + 2, len as u64) {
            Ok((_, e)) => Ok(e),
            Err(x) => Err(x),
        }
    } else {
        assert(p@ != seq![42u8] && p@ != seq![126u8] && p@ != seq![37u8]) by {
            if p@.len() == 1 {
                assert(p@[0] == p[0]);
            }
        }
        Err(RespError::InvalidFrameType(if p.len() > 0 { p[0] } else { 0 }))
    }
}

} // verus!
