use vstd::prelude::*;
use vstd::utf8::encode_utf8;

use crate::frame::{encode_map_into, crlf, view_entries, view_frames, Frame, RespFrame, CR, LF};
use crate::text::{abs, digits_of, push_digits, signed_text};

verus! {

/// A simple string: `+`, the UTF-8 bytes of the text, CR LF.
pub open spec fn text_line(s: Seq<char>) -> Seq<u8> {
    seq![43u8] + encode_utf8(s) + crlf()
}

/// The bytes that RESP writes for a frame. A map's entries go in the order the map holds
/// them, which for every `RespMap` is ascending key order.
pub open spec fn enc(f: Frame) -> Seq<u8>
    decreases f,
{
    match f {
        Frame::SimpleString(s) => text_line(s),
        Frame::Error(s) => seq![45u8] + encode_utf8(s) + crlf(),
        Frame::Integer(n) => seq![58u8] + signed_text(n) + crlf(),
        Frame::BulkString(b) => seq![36u8] + digits_of(b.len()) + crlf() + b + crlf(),
        Frame::NullBulkString => seq![36u8, 45u8, 49u8] + crlf(),
        Frame::Array(xs) => seq![42u8] + digits_of(xs.len()) + crlf() + enc_list(xs),
        Frame::NullArray => seq![42u8, 45u8, 49u8] + crlf(),
        Frame::Null => seq![95u8] + crlf(),
        Frame::Boolean(b) => seq![35u8, if b { 116u8 } else { 102u8 }] + crlf(),
        Frame::Double(d) => seq![44u8] + d + crlf(),
        Frame::RespMap(es) => seq![37u8] + digits_of(es.len()) + crlf() + enc_entries(es),
        Frame::RespSet(xs) => seq![126u8] + digits_of(xs.len()) + crlf() + enc_list(xs),
    }
}

/// The frames of a sequence, one after another.
pub open spec fn enc_list(xs: Seq<Frame>) -> Seq<u8>
    decreases xs,
{
    if xs.len() == 0 {
        seq![]
    } else {
        enc_list(xs.drop_last()) + enc(xs.last())
    }
}

/// Map entries: each key as a simple string, then its value.
pub open spec fn enc_entries(es: Seq<(Seq<char>, Frame)>) -> Seq<u8>
    decreases es,
{
    if es.len() == 0 {
        seq![]
    } else {
        enc_entries(es.drop_last()) + text_line(es.last().0) + enc(es.last().1)
    }
}

pub fn push_crlf(out: &mut Vec<u8>)
    ensures
        final(out)@ == old(out)@ + crlf(),
{
    out.push(CR);
    out.push(LF);
    assert(final(out)@ =~= old(out)@ + crlf());
}

fn push_bytes(out: &mut Vec<u8>, b: &[u8])
    ensures
        final(out)@ == old(out)@ + b@,
{
    out.extend_from_slice(b);
    assert(final(out)@ =~= old(out)@ + b@);
}

fn push_line(out: &mut Vec<u8>, prefix: u8, text: &str)
    ensures
        final(out)@ == old(out)@ + seq![prefix] + encode_utf8(text@) + crlf(),
{
    out.push(prefix);
    push_bytes(out, text.as_bytes());
    push_crlf(out);
    assert(final(out)@ =~= old(out)@ + seq![prefix] + encode_utf8(text@) + crlf());
}

pub(crate) fn push_header(out: &mut Vec<u8>, prefix: u8, n: usize)
    ensures
        final(out)@ == old(out)@ + seq![prefix] + digits_of(n as nat) + crlf(),
{
    out.push(prefix);
    push_digits(out, n as u64);
    push_crlf(out);
    assert(final(out)@ =~= old(out)@ + seq![prefix] + digits_of(n as nat) + crlf());
}

fn push_frames(out: &mut Vec<u8>, xs: &Vec<RespFrame>)
    ensures
        final(out)@ == old(out)@ + enc_list(view_frames(xs@)),
    decreases xs@, 0nat,
{
    let ghost start = out@;
    let mut i: usize = 0;
    while i < xs.len()
        invariant
            i <= xs.len(),
            out@ == start + enc_list(view_frames(xs@).subrange(0, i as int)),
        decreases xs.len() - i,
    {
        proof {
            let vs = view_frames(xs@);
            assert(vs.subrange(0, i + 1).drop_last() =~= vs.subrange(0, i as int));
        }
        encode_into(&xs[i], out);
        i += 1;
    }
    assert(view_frames(xs@).subrange(0, i as int) =~= view_frames(xs@));
}

pub(crate) fn push_entries(out: &mut Vec<u8>, es: &Vec<(String, RespFrame)>)
    ensures
        final(out)@ == old(out)@ + enc_entries(view_entries(es@)),
    decreases es@, 0nat,
{
    let ghost start = out@;
    let mut i: usize = 0;
    while i < es.len()
        invariant
            i <= es.len(),
            out@ == start + enc_entries(view_entries(es@).subrange(0, i as int)),
        decreases es.len() - i,
    {
        proof {
            let vs = view_entries(es@);
            assert(vs.subrange(0, i + 1).drop_last() =~= vs.subrange(0, i as int));
        }
        let entry = &es[i];
        push_line(out, 43, entry.0.as_str());
        encode_into(&entry.1, out);
        proof {
            let vs = view_entries(es@);
            assert(vs[i as int] == (entry.0@, entry.1@));
            assert(out@ =~= start + enc_entries(vs.subrange(0, i + 1)));
        }
        i += 1;
    }
    assert(view_entries(es@).subrange(0, i as int) =~= view_entries(es@));
}

/// Appends the RESP bytes of `f`.
pub fn encode_into(f: &RespFrame, out: &mut Vec<u8>)
    ensures
        final(out)@ == old(out)@ + enc(f@),
    decreases f, 1nat,
{
    let ghost start = out@;
    match f {
        RespFrame::SimpleString(s) => push_line(out, 43, s.0.as_str()),
        RespFrame::Error(e) => push_line(out, 45, e.0.as_str()),
        RespFrame::Integer(n) => {
            let n = *n;
            out.push(58);
            if n < 0 {
                out.push(45);
                let m: u64 = if n == i64::MIN { 0x8000_0000_0000_0000u64 } else { (-n) as u64 };
                assert(m as nat == abs(n as int));
                push_digits(out, m);
            } else {
                out.push(43);
                push_digits(out, n as u64);
            }
            push_crlf(out);
            assert(out@ =~= start + enc(f@)) by {
                assert(out@ =~= start + seq![58u8] + signed_text(n as int) + crlf());
            }
        },
        RespFrame::BulkString(b) => {
            push_header(out, 36, b.0.len());
            push_bytes(out, b.0.as_slice());
            push_crlf(out);
            assert(out@ =~= start + enc(f@));
        },
        RespFrame::NullBulkString(_) => {
            out.push(36);
            out.push(45);
            out.push(49);
            push_crlf(out);
            assert(out@ =~= start + enc(f@));
        },
        RespFrame::Array(a) => {
            push_header(out, 42, a.0.len());
            push_frames(out, &a.0);
            assert(out@ =~= start + enc(f@));
        },
        RespFrame::NullArray(_) => {
            out.push(42);
            out.push(45);
            out.push(49);
            push_crlf(out);
            assert(out@ =~= start + enc(f@));
        },
        RespFrame::Null(_) => {
            out.push(95);
            push_crlf(out);
            assert(out@ =~= start + enc(f@));
        },
        RespFrame::Boolean(b) => {
            out.push(35);
            out.push(if *b { 116 } else { 102 });
            push_crlf(out);
            assert(out@ =~= start + enc(f@));
        },
        RespFrame::Double(d) => {
            out.push(44);
            push_bytes(out, d.0.as_slice());
            push_crlf(out);
            assert(out@ =~= start + enc(f@));
        },
        RespFrame::RespMap(m) => encode_map_into(m, out),
        RespFrame::RespSet(s) => {
            push_header(out, 126, s.0.len());
            push_frames(out, &s.0);
            assert(out@ =~= start + enc(f@));
        },
    }
}

} // verus!
