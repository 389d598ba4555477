use vstd::prelude::*;
use vstd::utf8::{decode_utf8, encode_utf8, encode_utf8_decode_utf8, encode_utf8_valid_utf8, valid_utf8};

use crate::backend::{lists_entries, StoreView};
use crate::cmd::{ascii_lower, command_arity, executes, flat_pairs, parse_request, Fault, Request};
use crate::network::answers;
use crate::codec::RespDecode;
use crate::decode::{line_end, parse_at, parse_header, parse_items, parse_pairs, parse_text, Header, RespError};
use crate::encode::{enc, enc_entries, enc_list, text_line};
use crate::frame::{build_map, crlf, lemma_build_map_ascending, keys_ascending, map_insert, no_crlf, text_less, Frame, RespFrame, CR, LF};
use crate::order::{lemma_text_less_asymmetric, lemma_text_less_transitive};
use crate::text::{all_digits_no_crlf, crlf_from, digits_of, lemma_digits_of, lemma_parse_digits, lemma_parse_signed, signed_text};

verus! {

proof fn lemma_crlf_at(s: Seq<u8>, a: int, b: int)
    requires
        0 <= a <= b,
        b + 1 < s.len(),
        s[b] == CR,
        s[b + 1] == LF,
        forall|m: int| a <= m < b ==> s[m] != CR,
    ensures
        crlf_from(s, a) == Some(b),
    decreases b - a,
{
    if a < b {
        lemma_crlf_at(s, a + 1, b);
    }
}

/// A line of `body` after a type byte at `i` ends just after the body.
proof fn lemma_line(s: Seq<u8>, i: int, body: Seq<u8>)
    requires
        0 <= i,
        i + body.len() + 3 <= s.len(),
        s.subrange(i + 1, i + 1 + body.len()) == body,
        s.subrange(i + 1 + body.len(), i + 3 + body.len()) == crlf(),
        no_crlf(body),
    ensures
        line_end(s, i) == Some(i + 1 + body.len()),
        s.subrange(i + 1, i + 1 + body.len()) == body,
{
    let b = i + 1 + body.len();
    assert(s[b] == crlf()[0]);
    assert(s[b + 1] == crlf()[1]);
    assert forall|m: int| i + 1 <= m < b implies s[m] != CR by {
        assert(s[m] == body[m - i - 1]);
    }
    lemma_crlf_at(s, i + 1, b);
}

proof fn lemma_enc_list_front(xs: Seq<Frame>)
    requires
        xs.len() > 0,
    ensures
        enc_list(xs) == enc(xs[0]) + enc_list(xs.drop_first()),
    decreases xs.len(),
{
    if xs.len() == 1 {
        assert(xs.drop_last() =~= Seq::<Frame>::empty());
        assert(xs.drop_first() =~= Seq::<Frame>::empty());
        assert(enc_list(xs) =~= enc(xs[0]) + enc_list(xs.drop_first()));
    } else {
        let ys = xs.drop_last();
        lemma_enc_list_front(ys);
        assert(ys.drop_first() =~= xs.drop_first().drop_last());
        assert(xs.drop_first().last() == xs.last());
        assert(enc_list(xs) =~= enc(xs[0]) + enc_list(xs.drop_first()));
    }
}

proof fn lemma_enc_entries_front(es: Seq<(Seq<char>, Frame)>)
    requires
        es.len() > 0,
    ensures
        enc_entries(es) == text_line(es[0].0) + enc(es[0].1) + enc_entries(es.drop_first()),
    decreases es.len(),
{
    if es.len() == 1 {
        assert(es.drop_last() =~= Seq::<(Seq<char>, Frame)>::empty());
        assert(es.drop_first() =~= Seq::<(Seq<char>, Frame)>::empty());
        assert(enc_entries(es) =~= text_line(es[0].0) + enc(es[0].1) + enc_entries(es.drop_first()));
    } else {
        let ys = es.drop_last();
        lemma_enc_entries_front(ys);
        assert(ys.drop_first() =~= es.drop_first().drop_last());
        assert(es.drop_first().last() == es.last());
        assert(enc_entries(es) =~= text_line(es[0].0) + enc(es[0].1) + enc_entries(es.drop_first()));
    }
}

proof fn lemma_sub(s: Seq<u8>, i: int, e: Seq<u8>, a: int, b: int)
    requires
        0 <= i,
        i + e.len() <= s.len(),
        s.subrange(i, i + e.len()) == e,
        0 <= a <= b <= e.len(),
    ensures
        s.subrange(i + a, i + b) == e.subrange(a, b),
{
    assert(s.subrange(i + a, i + b) =~= s.subrange(i, i + e.len()).subrange(a, b));
}

/// A line `p body CR LF` at `i` ends right after `body`.
proof fn lemma_line_of(s: Seq<u8>, i: int, p: u8, body: Seq<u8>)
    requires
        0 <= i,
        i + body.len() + 3 <= s.len(),
        s.subrange(i, i + body.len() + 3) == seq![p] + body + crlf(),
        no_crlf(body),
    ensures
        line_end(s, i) == Some(i + 1 + body.len()),
        s.subrange(i + 1, i + 1 + body.len()) == body,
        s[i] == p,
{
    let e = seq![p] + body + crlf();
    lemma_sub(s, i, e, 1, 1 + body.len() as int);
    assert(e.subrange(1, 1 + body.len() as int) =~= body);
    lemma_sub(s, i, e, 1 + body.len() as int, 3 + body.len() as int);
    assert(e.subrange(1 + body.len() as int, 3 + body.len() as int) =~= crlf());
    assert(s[i] == e[0]);
    lemma_line(s, i, body);
}

/// A text line `p text CR LF` at `i` reads back as its text.
proof fn lemma_parse_text_line(s: Seq<u8>, i: int, p: u8, x: Seq<char>)
    requires
        0 <= i,
        i + encode_utf8(x).len() + 3 <= s.len(),
        s.subrange(i, i + encode_utf8(x).len() + 3) == seq![p] + encode_utf8(x) + crlf(),
        no_crlf(encode_utf8(x)),
    ensures
        parse_text(s, i) == Ok::<(Seq<char>, int), RespError>((x, i + encode_utf8(x).len() + 3)),
        s[i] == p,
{
    lemma_line_of(s, i, p, encode_utf8(x));
    encode_utf8_valid_utf8(x);
    encode_utf8_decode_utf8(x);
}

/// Reading a well-formed frame's bytes, wherever they stand, gives the frame back and stops
/// right after them.
pub proof fn lemma_parse_enc(f: Frame, s: Seq<u8>, i: int)
    requires
        f.wf(),
        0 <= i,
        i + enc(f).len() <= s.len(),
        s.subrange(i, i + enc(f).len()) == enc(f),
    ensures
        parse_at(s, i) == Ok::<(Frame, int), RespError>((f, i + enc(f).len())),
    decreases f, 1nat,
{
    match f {
        Frame::Array(_) => lemma_parse_aggregate(f, s, i),
        Frame::RespSet(_) => lemma_parse_aggregate(f, s, i),
        Frame::RespMap(_) => lemma_parse_aggregate(f, s, i),
        _ => lemma_parse_scalar(f, s, i),
    }
}

proof fn lemma_parse_scalar(f: Frame, s: Seq<u8>, i: int)
    requires
        f.wf(),
        !(f is Array || f is RespSet || f is RespMap),
        0 <= i,
        i + enc(f).len() <= s.len(),
        s.subrange(i, i + enc(f).len()) == enc(f),
    ensures
        parse_at(s, i) == Ok::<(Frame, int), RespError>((f, i + enc(f).len())),
{
    match f {
        Frame::SimpleString(_) => lemma_parse_line_frame(f, s, i),
        Frame::Error(_) => lemma_parse_line_frame(f, s, i),
        Frame::Integer(_) => lemma_parse_line_frame(f, s, i),
        Frame::Double(_) => lemma_parse_line_frame(f, s, i),
        Frame::BulkString(_) => lemma_parse_bulk(f, s, i),
        _ => lemma_parse_fixed(f, s, i),
    }
}

proof fn lemma_parse_line_frame(f: Frame, s: Seq<u8>, i: int)
    requires
        f.wf(),
        f is SimpleString || f is Error || f is Integer || f is Double,
        0 <= i,
        i + enc(f).len() <= s.len(),
        s.subrange(i, i + enc(f).len()) == enc(f),
    ensures
        parse_at(s, i) == Ok::<(Frame, int), RespError>((f, i + enc(f).len())),
{
    let e = enc(f);
    match f {
        Frame::SimpleString(x) => {
            assert(e =~= seq![43u8] + encode_utf8(x) + crlf());
            lemma_parse_text_line(s, i, 43, x);
        },
        Frame::Error(x) => {
            lemma_parse_text_line(s, i, 45, x);
        },
        Frame::Integer(v) => {
            let t = signed_text(v);
            lemma_parse_signed(v);
            all_digits_no_crlf(t.drop_first());
            assert(no_crlf(t)) by {
                assert forall|m: int| 0 <= m < t.len() implies t[m] != CR && t[m] != LF by {
                    if m > 0 {
                        assert(t[m] == t.drop_first()[m - 1]);
                    }
                }
            }
            lemma_line_of(s, i, 58, t);
        },
        Frame::Double(d) => {
            lemma_line_of(s, i, 44, d);
            let signed = if d[0] == 43 || d[0] == 45 { d } else { seq![43u8] + d };
            assert(signed.map_values(|b: u8| if b == 69 { 101u8 } else { b }) =~= d);
        },
        _ => {},
    }
}

proof fn lemma_parse_fixed(f: Frame, s: Seq<u8>, i: int)
    requires
        f is Boolean || f is Null || f is NullBulkString || f is NullArray,
        0 <= i,
        i + enc(f).len() <= s.len(),
        s.subrange(i, i + enc(f).len()) == enc(f),
    ensures
        parse_at(s, i) == Ok::<(Frame, int), RespError>((f, i + enc(f).len())),
{
    let e = enc(f);
    assert(s[i] == e[0]);
    match f {
        Frame::Boolean(b) => {
            assert(s.subrange(i, i + 4) =~= e);
            if b {
                assert(e =~= seq![35u8, 116u8, 13u8, 10u8]);
            } else {
                assert(e =~= seq![35u8, 102u8, 13u8, 10u8]);
            }
        },
        Frame::Null => {
            assert(s.subrange(i, i + 3) =~= e);
            assert(e =~= seq![95u8, 13u8, 10u8]);
        },
        Frame::NullBulkString => {
            assert(e =~= seq![36u8] + seq![45u8, 49u8] + crlf());
            lemma_line_of(s, i, 36, seq![45u8, 49u8]);
        },
        Frame::NullArray => {
            assert(e =~= seq![42u8] + seq![45u8, 49u8] + crlf());
            lemma_line_of(s, i, 42, seq![45u8, 49u8]);
        },
        _ => {},
    }
}

proof fn lemma_parse_bulk(f: Frame, s: Seq<u8>, i: int)
    requires
        f.wf(),
        f is BulkString,
        0 <= i,
        i + enc(f).len() <= s.len(),
        s.subrange(i, i + enc(f).len()) == enc(f),
    ensures
        parse_at(s, i) == Ok::<(Frame, int), RespError>((f, i + enc(f).len())),
{
    let e = enc(f);
    let n = e.len() as int;
    let b = f->BulkString_0;
    assert(f == Frame::BulkString(b));
    assert(s[i] == e[0]);
    let d = digits_of(b.len());
    let rest = b + crlf();
    assert(e =~= seq![36u8] + d + crlf() + rest);
    let h = lemma_count_header(s, i, 36, b.len(), rest, true);
    lemma_sub(s, i, e, h - i, n);
    assert(e.subrange(h - i, n) =~= rest);
    assert(s.subrange(h, h + b.len()) =~= rest.subrange(0, b.len() as int));
    assert(s.subrange(h, h + b.len()) =~= b);
    assert(s[h + b.len()] == rest[b.len() as int]);
    assert(s[h + b.len() + 1] == rest[b.len() + 1int]);
}

proof fn lemma_parse_aggregate(f: Frame, s: Seq<u8>, i: int)
    requires
        f.wf(),
        f is Array || f is RespSet || f is RespMap,
        0 <= i,
        i + enc(f).len() <= s.len(),
        s.subrange(i, i + enc(f).len()) == enc(f),
    ensures
        parse_at(s, i) == Ok::<(Frame, int), RespError>((f, i + enc(f).len())),
    decreases f, 0nat,
{
    let e = enc(f);
    let n = e.len() as int;
    assert(s[i] == e[0]);
    match f {
        Frame::Array(xs) => {
            let rest = enc_list(xs);
            assert(e =~= seq![42u8] + digits_of(xs.len()) + crlf() + rest);
            let h = lemma_count_header(s, i, 42, xs.len(), rest, true);
            lemma_sub(s, i, e, h - i, n);
            assert(e.subrange(h - i, n) =~= rest);
            lemma_parse_list(xs, s, h);
        },
        Frame::RespSet(xs) => {
            let rest = enc_list(xs);
            assert(e =~= seq![126u8] + digits_of(xs.len()) + crlf() + rest);
            let h = lemma_count_header(s, i, 126, xs.len(), rest, false);
            lemma_sub(s, i, e, h - i, n);
            assert(e.subrange(h - i, n) =~= rest);
            lemma_parse_list(xs, s, h);
        },
        Frame::RespMap(es) => {
            let rest = enc_entries(es);
            assert(e =~= seq![37u8] + digits_of(es.len()) + crlf() + rest);
            let h = lemma_count_header(s, i, 37, es.len(), rest, false);
            lemma_sub(s, i, e, h - i, n);
            assert(e.subrange(h - i, n) =~= rest);
            lemma_parse_entries(es, s, h);
            lemma_build_map_ascending(es);
        },
        _ => {},
    }
}

/// The header line `p digits CR LF` at `i` declares `k` and ends at the returned position.
proof fn lemma_count_header(s: Seq<u8>, i: int, p: u8, k: nat, rest: Seq<u8>, null_ok: bool) -> (h: int)
    requires
        0 <= i,
        k <= i64::MAX,
        i + (seq![p] + digits_of(k) + crlf() + rest).len() <= s.len(),
        s.subrange(i, i + (seq![p] + digits_of(k) + crlf() + rest).len()) == seq![p] + digits_of(k) + crlf() + rest,
    ensures
        h == i + 3 + digits_of(k).len(),
        parse_header(s, i, null_ok) == Ok::<(Header, int), RespError>((Header::Count(k), h)),
{
    let d = digits_of(k);
    let e = seq![p] + d + crlf() + rest;
    lemma_digits_of(k);
    lemma_parse_digits(k);
    all_digits_no_crlf(d);
    lemma_sub(s, i, e, 0, d.len() + 3int);
    assert(e.subrange(0, d.len() + 3int) =~= seq![p] + d + crlf());
    lemma_line_of(s, i, p, d);
    assert(d != seq![45u8, 49u8]) by {
        assert(48 <= d[0] <= 57);
    }
    i + 3 + d.len()
}

proof fn lemma_parse_list(xs: Seq<Frame>, s: Seq<u8>, j: int)
    requires
        forall|m: int| 0 <= m < xs.len() ==> (#[trigger] xs[m]).wf(),
        0 <= j,
        j + enc_list(xs).len() <= s.len(),
        s.subrange(j, j + enc_list(xs).len()) == enc_list(xs),
    ensures
        parse_items(s, j, xs.len()) == Ok::<(Seq<Frame>, int), RespError>((xs, j + enc_list(xs).len())),
    decreases xs, 0nat,
{
    if xs.len() > 0 {
        lemma_enc_list_front(xs);
        let x = xs[0];
        let rest = xs.drop_first();
        let ex = enc(x);
        assert(s.subrange(j, j + ex.len()) =~= ex) by {
            assert(s.subrange(j, j + ex.len()) =~= s.subrange(j, j + enc_list(xs).len()).subrange(0, ex.len() as int));
        }
        assert(x.wf());
        lemma_parse_enc(x, s, j);
        assert(s.subrange(j + ex.len(), j + ex.len() + enc_list(rest).len()) =~= enc_list(rest)) by {
            assert(s.subrange(j + ex.len(), j + ex.len() + enc_list(rest).len()) =~= s.subrange(
                j,
                j + enc_list(xs).len(),
            ).subrange(ex.len() as int, enc_list(xs).len() as int));
        }
        assert forall|m: int| 0 <= m < rest.len() implies (#[trigger] rest[m]).wf() by {
            assert(rest[m] == xs[m + 1]);
        }
        lemma_parse_list(rest, s, j + ex.len());
        assert(seq![x] + rest =~= xs);
        assert(parse_at(s, j) == Ok::<(Frame, int), RespError>((x, j + ex.len())));
        assert(parse_items(s, j + ex.len(), (xs.len() - 1) as nat) == Ok::<(Seq<Frame>, int), RespError>((rest, j + enc_list(xs).len())));
    } else {
        assert(xs =~= Seq::<Frame>::empty());
    }
}

proof fn lemma_parse_entries(es: Seq<(Seq<char>, Frame)>, s: Seq<u8>, j: int)
    requires
        forall|m: int| 0 <= m < es.len() ==> no_crlf(encode_utf8((#[trigger] es[m]).0)) && es[m].1.wf(),
        0 <= j,
        j + enc_entries(es).len() <= s.len(),
        s.subrange(j, j + enc_entries(es).len()) == enc_entries(es),
    ensures
        parse_pairs(s, j, es.len()) == Ok::<(Seq<(Seq<char>, Frame)>, int), RespError>(
            (es, j + enc_entries(es).len()),
        ),
    decreases es, 0nat,
{
    if es.len() > 0 {
        lemma_enc_entries_front(es);
        let (k, v) = es[0];
        let rest = es.drop_first();
        let whole = s.subrange(j, j + enc_entries(es).len());
        let kl = encode_utf8(k).len() + 3int;
        let vl = enc(v).len();
        assert(s.subrange(j, j + kl) =~= text_line(k)) by {
            assert(s.subrange(j, j + kl) =~= whole.subrange(0, kl as int));
        }
        assert(no_crlf(encode_utf8(k)));
        lemma_parse_text_line(s, j, 43, k);
        assert(s.subrange(j + kl, j + kl + vl) =~= enc(v)) by {
            assert(s.subrange(j + kl, j + kl + vl) =~= whole.subrange(kl as int, (kl + vl) as int));
        }
        assert(v.wf());
        lemma_parse_enc(v, s, j + kl);
        assert(s.subrange(j + kl + vl, j + enc_entries(es).len()) =~= enc_entries(rest)) by {
            assert(s.subrange(j + kl + vl, j + enc_entries(es).len()) =~= whole.subrange(
                (kl + vl) as int,
                enc_entries(es).len() as int,
            ));
        }
        assert forall|m: int| 0 <= m < rest.len() implies no_crlf(encode_utf8((#[trigger] rest[m]).0)) && rest[m].1.wf() by {
            assert(rest[m] == es[m + 1]);
        }
        lemma_parse_entries(rest, s, j + kl + vl);
        assert(seq![(k, v)] + rest =~= es);
        assert(s[j] == 43);
        assert(parse_text(s, j) == Ok::<(Seq<char>, int), RespError>((k, j + kl)));
        assert(parse_at(s, j + kl) == Ok::<(Frame, int), RespError>((v, j + kl + vl)));
        assert(parse_pairs(s, j + kl + vl, (es.len() - 1) as nat) == Ok::<(Seq<(Seq<char>, Frame)>, int), RespError>((rest, j + enc_entries(es).len())));
    } else {
        assert(es =~= Seq::<(Seq<char>, Frame)>::empty());
    }
}

} // verus!

verus! {

proof fn lemma_crlf_none(s: Seq<u8>, a: int)
    requires
        0 <= a,
        forall|m: int| a <= m && m + 1 < s.len() ==> !(#[trigger] s[m] == CR && s[m + 1] == LF),
    ensures
        crlf_from(s, a) is None,
    decreases s.len() - a,
{
    if a + 1 < s.len() {
        lemma_crlf_none(s, a + 1);
    }
}

/// A line `p body CR LF` cut short at `i` has no end yet.
proof fn lemma_line_cut(s: Seq<u8>, i: int, p: u8, body: Seq<u8>)
    requires
        0 <= i <= s.len(),
        s.len() - i < body.len() + 3,
        s.subrange(i, s.len() as int) == (seq![p] + body + crlf()).subrange(0, s.len() - i),
        no_crlf(body),
    ensures
        line_end(s, i) is None,
{
    let l = seq![p] + body + crlf();
    assert forall|m: int| i + 1 <= m && m + 1 < s.len() implies !(#[trigger] s[m] == CR && s[m + 1] == LF) by {
        assert(s[m] == s.subrange(i, s.len() as int)[m - i]);
        assert(s[m] == l[m - i]);
        if m - i <= body.len() {
            assert(l[m - i] == body[m - i - 1]);
        }
    }
    lemma_crlf_none(s, i + 1);
}

proof fn lemma_prefix_of(s: Seq<u8>, i: int, e: Seq<u8>, a: int)
    requires
        0 <= i <= s.len(),
        s.len() - i <= e.len(),
        s.subrange(i, s.len() as int) == e.subrange(0, s.len() - i),
        0 <= a <= e.len(),
    ensures
        s.len() - i <= a ==> s.subrange(i, s.len() as int) == e.subrange(0, a).subrange(0, s.len() - i),
        a <= s.len() - i ==> s.subrange(i, i + a) == e.subrange(0, a),
{
    if s.len() - i <= a {
        assert(s.subrange(i, s.len() as int) =~= e.subrange(0, a).subrange(0, s.len() - i));
    } else {
        assert(s.subrange(i, i + a) =~= s.subrange(i, s.len() as int).subrange(0, a));
        assert(e.subrange(0, s.len() - i).subrange(0, a) =~= e.subrange(0, a));
    }
}

/// The bytes of a well-formed frame, cut short anywhere, do not yet make a frame.
pub proof fn lemma_parse_prefix(f: Frame, s: Seq<u8>, i: int)
    requires
        f.wf(),
        0 <= i <= s.len(),
        s.len() - i < enc(f).len(),
        s.subrange(i, s.len() as int) == enc(f).subrange(0, s.len() - i),
    ensures
        parse_at(s, i) == Err::<(Frame, int), RespError>(RespError::NotComplete),
    decreases f, 1nat,
{
    if i < s.len() {
        assert(s[i] == enc(f)[0]) by {
            assert(s[i] == s.subrange(i, s.len() as int)[0]);
        }
        match f {
            Frame::Array(_) => lemma_prefix_aggregate(f, s, i),
            Frame::RespSet(_) => lemma_prefix_aggregate(f, s, i),
            Frame::RespMap(_) => lemma_prefix_aggregate(f, s, i),
            _ => lemma_prefix_scalar(f, s, i),
        }
    }
}

proof fn lemma_prefix_scalar(f: Frame, s: Seq<u8>, i: int)
    requires
        f.wf(),
        !(f is Array || f is RespSet || f is RespMap),
        0 <= i < s.len(),
        s.len() - i < enc(f).len(),
        s.subrange(i, s.len() as int) == enc(f).subrange(0, s.len() - i),
        s[i] == enc(f)[0],
    ensures
        parse_at(s, i) == Err::<(Frame, int), RespError>(RespError::NotComplete),
{
    let e = enc(f);
    match f {
        Frame::SimpleString(x) => {
            assert(e =~= seq![43u8] + encode_utf8(x) + crlf());
            lemma_line_cut(s, i, 43, encode_utf8(x));
        },
        Frame::Error(x) => {
            assert(e =~= seq![45u8] + encode_utf8(x) + crlf());
            lemma_line_cut(s, i, 45, encode_utf8(x));
        },
        Frame::Integer(v) => {
            let t = signed_text(v);
            lemma_parse_signed(v);
            all_digits_no_crlf(t.drop_first());
            assert(no_crlf(t)) by {
                assert forall|m: int| 0 <= m < t.len() implies t[m] != CR && t[m] != LF by {
                    if m > 0 {
                        assert(t[m] == t.drop_first()[m - 1]);
                    }
                }
            }
            lemma_line_cut(s, i, 58, t);
        },
        Frame::Double(d) => {
            lemma_line_cut(s, i, 44, d);
        },
        Frame::NullBulkString => {
            assert(e =~= seq![36u8] + seq![45u8, 49u8] + crlf());
            lemma_line_cut(s, i, 36, seq![45u8, 49u8]);
        },
        Frame::NullArray => {
            assert(e =~= seq![42u8] + seq![45u8, 49u8] + crlf());
            lemma_line_cut(s, i, 42, seq![45u8, 49u8]);
        },
        Frame::BulkString(b) => {
            let d = digits_of(b.len());
            let rest = b + crlf();
            let hl = d.len() + 3int;
            assert(e =~= seq![36u8] + d + crlf() + rest);
            lemma_digits_of(b.len());
            all_digits_no_crlf(d);
            lemma_prefix_of(s, i, e, hl);
            assert(e.subrange(0, hl) =~= seq![36u8] + d + crlf());
            if s.len() - i < hl {
                lemma_line_cut(s, i, 36, d);
            } else {
                lemma_count_header(s, i, 36, b.len(), Seq::empty(), true);
            }
        },
        _ => {},
    }
}

proof fn lemma_prefix_aggregate(f: Frame, s: Seq<u8>, i: int)
    requires
        f.wf(),
        f is Array || f is RespSet || f is RespMap,
        0 <= i < s.len(),
        s.len() - i < enc(f).len(),
        s.subrange(i, s.len() as int) == enc(f).subrange(0, s.len() - i),
        s[i] == enc(f)[0],
    ensures
        parse_at(s, i) == Err::<(Frame, int), RespError>(RespError::NotComplete),
    decreases f, 0nat,
{
    let e = enc(f);
    let (p, k, rest) = match f {
        Frame::Array(xs) => (42u8, xs.len(), enc_list(xs)),
        Frame::RespSet(xs) => (126u8, xs.len(), enc_list(xs)),
        Frame::RespMap(es) => (37u8, es.len(), enc_entries(es)),
        _ => (0u8, 0nat, Seq::empty()),
    };
    let d = digits_of(k);
    let hl = d.len() + 3int;
    assert(e =~= seq![p] + d + crlf() + rest);
    lemma_digits_of(k);
    all_digits_no_crlf(d);
    lemma_prefix_of(s, i, e, hl);
    assert(e.subrange(0, hl) =~= seq![p] + d + crlf());
    if s.len() - i < hl {
        lemma_line_cut(s, i, p, d);
    } else {
        let h = lemma_count_header(s, i, p, k, Seq::empty(), p == 42);
        assert(s.subrange(h, s.len() as int) =~= rest.subrange(0, s.len() - h)) by {
            assert(s.subrange(h, s.len() as int) =~= s.subrange(i, s.len() as int).subrange(hl, s.len() - i));
            assert(e.subrange(0, s.len() - i).subrange(hl, s.len() - i) =~= rest.subrange(0, s.len() - h));
        }
        match f {
            Frame::Array(xs) => lemma_items_prefix(xs, s, h),
            Frame::RespSet(xs) => lemma_items_prefix(xs, s, h),
            Frame::RespMap(es) => lemma_pairs_prefix(es, s, h),
            _ => {},
        }
    }
}

proof fn lemma_items_prefix(xs: Seq<Frame>, s: Seq<u8>, j: int)
    requires
        forall|m: int| 0 <= m < xs.len() ==> (#[trigger] xs[m]).wf(),
        0 <= j <= s.len(),
        s.len() - j < enc_list(xs).len(),
        s.subrange(j, s.len() as int) == enc_list(xs).subrange(0, s.len() - j),
    ensures
        parse_items(s, j, xs.len()) == Err::<(Seq<Frame>, int), RespError>(RespError::NotComplete),
    decreases xs, 0nat,
{
    if xs.len() == 0 {
        assert(false);
    } else {
        lemma_enc_list_front(xs);
        let x = xs[0];
        let rest = xs.drop_first();
        let l = enc_list(xs);
        let xl = enc(x).len() as int;
        assert(x.wf());
        lemma_prefix_of(s, j, l, xl);
        assert(l.subrange(0, xl) =~= enc(x));
        if s.len() - j < xl {
            lemma_parse_prefix(x, s, j);
        } else {
            lemma_parse_enc(x, s, j);
            assert(s.subrange(j + xl, s.len() as int) =~= enc_list(rest).subrange(0, s.len() - j - xl)) by {
                assert(s.subrange(j + xl, s.len() as int) =~= s.subrange(j, s.len() as int).subrange(xl, s.len() - j));
                assert(l.subrange(0, s.len() - j).subrange(xl, s.len() - j) =~= enc_list(rest).subrange(0, s.len() - j - xl));
            }
            assert forall|m: int| 0 <= m < rest.len() implies (#[trigger] rest[m]).wf() by {
                assert(rest[m] == xs[m + 1]);
            }
            lemma_items_prefix(rest, s, j + xl);
        }
    }
}

proof fn lemma_pairs_prefix(es: Seq<(Seq<char>, Frame)>, s: Seq<u8>, j: int)
    requires
        forall|m: int| 0 <= m < es.len() ==> no_crlf(encode_utf8((#[trigger] es[m]).0)) && es[m].1.wf(),
        0 <= j <= s.len(),
        s.len() - j < enc_entries(es).len(),
        s.subrange(j, s.len() as int) == enc_entries(es).subrange(0, s.len() - j),
    ensures
        parse_pairs(s, j, es.len()) == Err::<(Seq<(Seq<char>, Frame)>, int), RespError>(
            RespError::NotComplete,
        ),
    decreases es, 0nat,
{
    if es.len() == 0 {
        assert(false);
    } else if j < s.len() {
        lemma_enc_entries_front(es);
        let (k, v) = es[0];
        let rest = es.drop_first();
        let l = enc_entries(es);
        let kl = encode_utf8(k).len() + 3int;
        let vl = enc(v).len() as int;
        assert(no_crlf(encode_utf8(k)) && v.wf());
        assert(s[j] == 43) by {
            assert(s[j] == s.subrange(j, s.len() as int)[0]);
        }
        lemma_prefix_of(s, j, l, kl);
        assert(l.subrange(0, kl) =~= seq![43u8] + encode_utf8(k) + crlf());
        if s.len() - j < kl {
            lemma_line_cut(s, j, 43, encode_utf8(k));
        } else {
            lemma_parse_text_line(s, j, 43, k);
            lemma_prefix_of(s, j, l, kl + vl);
            if s.len() - j < kl + vl {
                assert(s.subrange(j + kl, s.len() as int) =~= enc(v).subrange(0, s.len() - j - kl)) by {
                    assert(s.subrange(j + kl, s.len() as int) =~= s.subrange(j, s.len() as int).subrange(kl, s.len() - j));
                    assert(l.subrange(0, s.len() - j).subrange(kl, s.len() - j) =~= enc(v).subrange(0, s.len() - j - kl));
                }
                lemma_parse_prefix(v, s, j + kl);
            } else {
                assert(s.subrange(j + kl, j + kl + vl) =~= enc(v)) by {
                    assert(s.subrange(j + kl, j + kl + vl) =~= s.subrange(j, j + kl + vl).subrange(kl, kl + vl));
                    assert(l.subrange(0, kl + vl).subrange(kl, kl + vl) =~= enc(v));
                }
                lemma_parse_enc(v, s, j + kl);
                assert(s.subrange(j + kl + vl, s.len() as int) =~= enc_entries(rest).subrange(0, s.len() - j - kl - vl)) by {
                    assert(s.subrange(j + kl + vl, s.len() as int) =~= s.subrange(j, s.len() as int).subrange(kl + vl, s.len() - j));
                    assert(l.subrange(0, s.len() - j).subrange(kl + vl, s.len() - j) =~= enc_entries(rest).subrange(0, s.len() - j - kl - vl));
                }
                assert forall|m: int| 0 <= m < rest.len() implies no_crlf(encode_utf8((#[trigger] rest[m]).0)) && rest[m].1.wf() by {
                    assert(rest[m] == es[m + 1]);
                }
                lemma_pairs_prefix(rest, s, j + kl + vl);
            }
        }
    }
}

/// Decoding the bytes that encoding wrote gives the frame back; it takes exactly those bytes
/// and leaves whatever follows them in the buffer.
pub proof fn law_decode_encode(f: Frame, rest: Seq<u8>)
    requires
        f.wf(),
    ensures
        <RespFrame as RespDecode>::decode_spec(enc(f) + rest) == Ok::<(Frame, int), RespError>(
            (f, enc(f).len() as int),
        ),
{
    let s = enc(f) + rest;
    assert(s.subrange(0, enc(f).len() as int) =~= enc(f));
    lemma_parse_enc(f, s, 0);
}

/// Any strict prefix of a frame's bytes asks for more: decoding it reports `NotComplete`,
/// which consumes nothing.
pub proof fn law_prefix_incomplete(f: Frame, n: int)
    requires
        f.wf(),
        0 <= n < enc(f).len(),
    ensures
        <RespFrame as RespDecode>::decode_spec(enc(f).subrange(0, n)) == Err::<(Frame, int), RespError>(
            RespError::NotComplete,
        ),
{
    let s = enc(f).subrange(0, n);
    assert(s.subrange(0, s.len() as int) =~= enc(f).subrange(0, s.len() as int));
    lemma_parse_prefix(f, s, 0);
}

} // verus!

verus! {

/// The letter case of a command's name does not matter: an array led by a name that differs
/// from a command's name only in case spells what the array led by that name spells.
pub proof fn law_name_case(xs: Seq<Frame>, name: Seq<u8>)
    requires
        xs.len() > 0,
        xs[0] is BulkString,
        command_arity(ascii_lower(xs[0]->BulkString_0)) is Some,
        ascii_lower(name) == ascii_lower(xs[0]->BulkString_0),
    ensures
        parse_request(xs.update(0, Frame::BulkString(name))) == parse_request(xs),
{
    let ys = xs.update(0, Frame::BulkString(name));
    assert(ys[0] == Frame::BulkString(name));
    assert forall|i: int| 1 <= i < xs.len() implies ys[i] == xs[i] by {}
}

/// After `SET key v` for each value of `values` in turn, `GET key` answers the last of them.
pub proof fn law_last_set_wins(
    key: Seq<char>,
    values: Seq<Frame>,
    stores: Seq<StoreView>,
    replies: Seq<Frame>,
    after: StoreView,
    answer: Frame,
)
    requires
        values.len() > 0,
        stores.len() == values.len() + 1,
        replies.len() == values.len(),
        forall|i: int|
            0 <= i < values.len() ==> executes(
                Request::SetValue { key, value: values[i] },
                #[trigger] stores[i],
                stores[i + 1],
                replies[i],
            ),
        executes(Request::Get { key }, stores[values.len() as int], after, answer),
    ensures
        answer == values.last(),
{
    let n = values.len() - 1;
    assert(executes(Request::SetValue { key, value: values[n] }, stores[n], stores[n + 1], replies[n]));
}

/// `HGETALL` with sorting lists every field of the hash once, with its value, in ascending
/// field order.
pub proof fn law_hgetall_sorted(before: StoreView, key: Seq<char>, after: StoreView, answer: Frame)
    requires
        executes(Request::HGetAll { key, sort: true }, before, after, answer),
        before.hashes.contains_key(key),
    ensures
        exists|ps: Seq<(Seq<char>, Frame)>| #[trigger] lists_entries(ps, before.hashes[key]) && keys_ascending(ps)
            && answer == Frame::Array(flat_pairs(ps)),
{
}

} // verus!

verus! {

/// A request whose name is no command is answered with an error that names it, and the store
/// is left as it was. Such a frame is still served (`serve_one` gives `Ok(true)`), so the
/// connection goes on.
pub proof fn law_unknown_command(
    before: StoreView,
    name: Seq<u8>,
    args: Seq<Frame>,
    after: StoreView,
    r: Frame,
)
    requires
        command_arity(ascii_lower(name)) is None,
        valid_utf8(name),
        answers(before, Frame::Array(seq![Frame::BulkString(name)] + args), after, r),
    ensures
        after == before,
        r == Frame::Error("Invalid command: "@ + decode_utf8(name)),
{
    let xs = seq![Frame::BulkString(name)] + args;
    assert(xs[0] == Frame::BulkString(name));
    assert(parse_request(xs) == Err::<Request, Fault>(Fault::Unknown(name)));
}

} // verus!
