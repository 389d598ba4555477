use vstd::prelude::*;
use vstd::slice::slice_to_vec;
use vstd::utf8::encode_utf8;

use crate::order::{
    lemma_text_less_asymmetric,
    compare_text, lemma_text_less_irreflexive, lemma_text_less_total, lemma_text_less_transitive,
};
use crate::encode::{enc, push_entries, push_header};
use crate::text::decimal_ok;

verus! {

/// Carriage return, the first byte of every line terminator.
pub const CR: u8 = 13;

/// Line feed, the second byte of every line terminator.
pub const LF: u8 = 10;

/// A RESP value as it travels on the wire.
#[derive(Debug, PartialEq)]
pub enum RespFrame {
    SimpleString(SimpleString),
    Error(SimpleError),
    Integer(i64),
    BulkString(BulkString),
    NullBulkString(RespNullBulkString),
    Array(RespArray),
    NullArray(RespNullArray),
    Null(RespNull),
    Boolean(bool),
    Double(RespDouble),
    RespMap(RespMap),
    RespSet(RespSet),
}

/// Text without CR or LF, sent with the `+` prefix.
#[derive(Debug, Clone, PartialEq, Eq)]
pub struct SimpleString(pub String);

/// Error text without CR or LF, sent with the `-` prefix.
#[derive(Debug, Clone, PartialEq, Eq)]
pub struct SimpleError(pub String);

/// A binary-safe byte string, sent with the `$` prefix and its length.
#[derive(Debug, Clone, PartialEq, Eq)]
pub struct BulkString(pub Vec<u8>);

/// The RESP3 null, `_`.
#[derive(Debug, Clone, Copy, PartialEq, Eq)]
pub struct RespNull;

/// The null array, `*-1`.
#[derive(Debug, Clone, Copy, PartialEq, Eq)]
pub struct RespNullArray;

/// The null bulk string, `$-1`.
#[derive(Debug, Clone, Copy, PartialEq, Eq)]
pub struct RespNullBulkString;

/// An ordered sequence of frames, sent with the `*` prefix.
#[derive(Debug, PartialEq)]
pub struct RespArray(pub Vec<RespFrame>);

/// A sequence of frames, sent with the `~` prefix.
#[derive(Debug, PartialEq)]
pub struct RespSet(pub Vec<RespFrame>);

/// A mapping from text keys to frames, held as entries in strictly ascending key order.
#[derive(Debug, PartialEq)]
pub struct RespMap(Vec<(String, RespFrame)>);

/// A double, held as its decimal text: a sign, digits, an optional fraction and an
/// optional exponent written with a lowercase `e` (`+1.5`, `-2e-9`).
#[derive(Debug, Clone, PartialEq, Eq)]
pub struct RespDouble(pub Vec<u8>);

/// The mathematical value of a frame.
pub enum Frame {
    SimpleString(Seq<char>),
    Error(Seq<char>),
    Integer(int),
    BulkString(Seq<u8>),
    NullBulkString,
    Array(Seq<Frame>),
    NullArray,
    Null,
    Boolean(bool),
    Double(Seq<u8>),
    RespMap(Seq<(Seq<char>, Frame)>),
    RespSet(Seq<Frame>),
}

pub open spec fn crlf() -> Seq<u8> {
    seq![CR, LF]
}

/// No byte is CR or LF.
pub open spec fn no_crlf(b: Seq<u8>) -> bool {
    forall|i: int| 0 <= i < b.len() ==> b[i] != CR && b[i] != LF
}

/// Text that may stand on one line: its UTF-8 bytes hold no CR and no LF.
pub open spec fn text_ok(s: Seq<char>) -> bool {
    no_crlf(encode_utf8(s))
}

/// Strict lexicographic order on byte sequences.
pub open spec fn bytes_less(a: Seq<u8>, b: Seq<u8>) -> bool
    decreases a.len(),
{
    if a.len() == 0 {
        b.len() > 0
    } else if b.len() == 0 {
        false
    } else if a[0] != b[0] {
        a[0] < b[0]
    } else {
        bytes_less(a.drop_first(), b.drop_first())
    }
}

/// Strict order on text: the order of the UTF-8 bytes, as `str` compares.
pub open spec fn text_less(a: Seq<char>, b: Seq<char>) -> bool {
    bytes_less(encode_utf8(a), encode_utf8(b))
}

/// Keys in strictly ascending order, hence pairwise distinct.
pub open spec fn keys_ascending<V>(es: Seq<(Seq<char>, V)>) -> bool {
    forall|i: int, j: int| 0 <= i < j < es.len() ==> text_less(es[i].0, es[j].0)
}

/// Double text: an optional sign, digits, an optional `.` and digits, an optional
/// exponent marker `e` or `E`, an optional sign and digits.
pub open spec fn is_digit(b: u8) -> bool {
    48 <= b <= 57
}

pub open spec fn all_digits(b: Seq<u8>) -> bool {
    forall|i: int| 0 <= i < b.len() ==> is_digit(b[i])
}

/// The values of a sequence of frames.
pub open spec fn view_frames(xs: Seq<RespFrame>) -> Seq<Frame>
    decreases xs,
{
    Seq::new(xs.len(), |i: int| if 0 <= i < xs.len() { xs[i]@ } else { Frame::Null })
}

/// The values of a sequence of map entries.
pub open spec fn view_entries(es: Seq<(String, RespFrame)>) -> Seq<(Seq<char>, Frame)>
    decreases es,
{
    Seq::new(
        es.len(),
        |i: int| if 0 <= i < es.len() { (es[i].0@, es[i].1@) } else { (Seq::empty(), Frame::Null) },
    )
}

/// Entries in ascending key order with `(k, v)` put in: it replaces the entry with key
/// `k`, or stands before the first greater key.
pub open spec fn map_insert(es: Seq<(Seq<char>, Frame)>, k: Seq<char>, v: Frame) -> Seq<
    (Seq<char>, Frame),
>
    decreases es.len(),
{
    if es.len() == 0 {
        seq![(k, v)]
    } else if es[0].0 == k {
        es.update(0, (k, v))
    } else if text_less(k, es[0].0) {
        seq![(k, v)] + es
    } else {
        seq![es[0]] + map_insert(es.drop_first(), k, v)
    }
}

/// The map that entries make when put in one by one: a later entry replaces an earlier
/// one with the same key.
pub open spec fn build_map(ps: Seq<(Seq<char>, Frame)>) -> Seq<(Seq<char>, Frame)>
    decreases ps.len(),
{
    if ps.len() == 0 {
        seq![]
    } else {
        map_insert(build_map(ps.drop_last()), ps.last().0, ps.last().1)
    }
}

impl Frame {
    /// The frame's invariant: text fits on one line, an integer fits in 64 bits, a double is
    /// written with a sign and a lowercase exponent marker, lengths fit in a signed 64-bit
    /// header, map keys ascend; and so for every frame inside.
    pub open spec fn wf(self) -> bool
        decreases self,
    {
        match self {
            Frame::SimpleString(s) => text_ok(s),
            Frame::Error(s) => text_ok(s),
            Frame::Integer(n) => i64::MIN <= n <= i64::MAX,
            Frame::BulkString(b) => b.len() <= i64::MAX,
            Frame::Double(d) => decimal_ok(d) && no_crlf(d) && d.len() > 0 && (d[0] == 43 || d[0] == 45)
                && forall|i: int| 0 <= i < d.len() ==> d[i] != 69,
            Frame::Array(xs) => xs.len() <= i64::MAX && forall|i: int| 0 <= i < xs.len() ==> (#[trigger] xs[i]).wf(),
            Frame::RespSet(xs) => xs.len() <= i64::MAX && forall|i: int| 0 <= i < xs.len() ==> (#[trigger] xs[i]).wf(),
            Frame::RespMap(es) => es.len() <= i64::MAX && keys_ascending(es) && forall|i: int|
                0 <= i < es.len() ==> text_ok((#[trigger] es[i]).0) && es[i].1.wf(),
            _ => true,
        }
    }
}

impl View for RespFrame {
    type V = Frame;

    open spec fn view(&self) -> Frame
        decreases self,
    {
        match self {
            RespFrame::SimpleString(s) => Frame::SimpleString(s.0@),
            RespFrame::Error(e) => Frame::Error(e.0@),
            RespFrame::Integer(n) => Frame::Integer(*n as int),
            RespFrame::BulkString(b) => Frame::BulkString(b.0@),
            RespFrame::NullBulkString(_) => Frame::NullBulkString,
            RespFrame::Array(a) => Frame::Array(view_frames(a.0@)),
            RespFrame::NullArray(_) => Frame::NullArray,
            RespFrame::Null(_) => Frame::Null,
            RespFrame::Boolean(b) => Frame::Boolean(*b),
            RespFrame::Double(d) => Frame::Double(d.0@),
            RespFrame::RespMap(m) => Frame::RespMap(m.entries_view()),
            RespFrame::RespSet(s) => Frame::RespSet(view_frames(s.0@)),
        }
    }
}

} // verus!

verus! {

/// Puts `(key, value)` into ascending entries, as `map_insert` says.
fn insert_entry(v: &mut Vec<(String, RespFrame)>, key: String, value: RespFrame)
    ensures
        view_entries(final(v)@) == map_insert(view_entries(old(v)@), key@, value@),
{
    let ghost es = view_entries(v@);
    let ghost old_items = v@;
    let mut i: usize = 0;
    assert(es.subrange(0, es.len() as int) =~= es);
    assert(es.subrange(0, 0) + es =~= es);
    while i < v.len()
        invariant
            i <= v@.len(),
            v@ == old_items,
            es == view_entries(old_items),
            es == view_entries(old(v)@),
            map_insert(es, key@, value@) == es.subrange(0, i as int) + map_insert(
                es.subrange(i as int, es.len() as int),
                key@,
                value@,
            ),
        decreases v.len() - i,
    {
        let c = compare_text(key.as_str(), v[i].0.as_str());
        let ghost rest = es.subrange(i as int, es.len() as int);
        assert(rest[0] == es[i as int]);
        if c == 0 {
            let _ = v.remove(i);
            v.insert(i, (key, value));
            assert(view_entries(v@) =~= map_insert(es, key@, value@)) by {
                assert(map_insert(rest, key@, value@) =~= rest.update(0, (key@, value@)));
            }
            return;
        } else if c == -1 {
            v.insert(i, (key, value));
            assert(view_entries(v@) =~= map_insert(es, key@, value@));
            return;
        }
        proof {
            lemma_text_less_irreflexive(key@);
            assert(rest.drop_first() =~= es.subrange(i + 1, es.len() as int));
            assert(es.subrange(0, i + 1) =~= es.subrange(0, i as int) + seq![es[i as int]]);
        }
        i += 1;
    }
    v.push((key, value));
    assert(es.subrange(i as int, es.len() as int) =~= Seq::<(Seq<char>, Frame)>::empty());
    assert(view_entries(v@) =~= map_insert(es, key@, value@));
}

impl RespMap {
    #[verifier::type_invariant]
    spec fn keys_in_order(&self) -> bool {
        keys_ascending(view_entries(self.0@))
    }

    /// The entries, in the order the map holds them: ascending by key.
    pub closed spec fn entries_view(&self) -> Seq<(Seq<char>, Frame)>
        decreases self,
    {
        view_entries(self.0@)
    }

    /// An empty map.
    pub fn new() -> (r: Self)
        ensures
            r.entries_view().len() == 0,
    {
        let r = RespMap(Vec::new());
        assert(view_entries(r.0@) =~= Seq::<(Seq<char>, Frame)>::empty());
        r
    }

    /// How many entries the map holds.
    pub fn len(&self) -> (r: usize)
        ensures
            r == self.entries_view().len(),
    {
        self.0.len()
    }

    /// The entries, in ascending key order.
    pub fn entries(&self) -> (r: &Vec<(String, RespFrame)>)
        ensures
            view_entries(r@) == self.entries_view(),
            keys_ascending(self.entries_view()),
    {
        proof {
            use_type_invariant(self);
        }
        &self.0
    }

    /// The entries, in ascending key order.
    pub fn into_entries(self) -> (r: Vec<(String, RespFrame)>)
        ensures
            view_entries(r@) == self.entries_view(),
            keys_ascending(self.entries_view()),
    {
        proof {
            use_type_invariant(&self);
        }
        self.0
    }

    /// Puts `value` under `key`, replacing what the key held.
    pub fn insert(&mut self, key: String, value: RespFrame)
        ensures
            final(self).entries_view() == map_insert(old(self).entries_view(), key@, value@),
    {
        proof {
            use_type_invariant(&*self);
        }
        let mut v: Vec<(String, RespFrame)> = Vec::new();
        assert(view_entries(v@) =~= Seq::<(Seq<char>, Frame)>::empty());
        std::mem::swap(&mut v, &mut self.0);
        let ghost before = view_entries(v@);
        insert_entry(&mut v, key, value);
        proof {
            lemma_map_insert_ascending(before, key@, value@);
        }
        self.0 = v;
    }
}

pub proof fn lemma_map_insert_last(es: Seq<(Seq<char>, Frame)>, k: Seq<char>, v: Frame)
    requires
        forall|i: int| 0 <= i < es.len() ==> text_less(es[i].0, k),
    ensures
        map_insert(es, k, v) == es.push((k, v)),
    decreases es.len(),
{
    if es.len() > 0 {
        lemma_text_less_asymmetric(es[0].0, k);
        lemma_map_insert_last(es.drop_first(), k, v);
        assert(seq![es[0]] + es.drop_first().push((k, v)) =~= es.push((k, v)));
    } else {
        assert(seq![(k, v)] =~= es.push((k, v)));
    }
}

/// Ascending entries make themselves when put in one by one.
pub proof fn lemma_build_map_ascending(es: Seq<(Seq<char>, Frame)>)
    requires
        keys_ascending(es),
    ensures
        build_map(es) == es,
    decreases es.len(),
{
    if es.len() > 0 {
        let ys = es.drop_last();
        assert(keys_ascending(ys));
        lemma_build_map_ascending(ys);
        assert forall|i: int| 0 <= i < ys.len() implies text_less(ys[i].0, es.last().0) by {
            assert(ys[i] == es[i]);
        }
        lemma_map_insert_last(ys, es.last().0, es.last().1);
        assert(ys.push(es.last()) =~= es);
    }
}

/// Putting an entry into ascending entries keeps them ascending; each key of the result is the
/// new key or an old one.
pub proof fn lemma_map_insert_ascending(es: Seq<(Seq<char>, Frame)>, k: Seq<char>, v: Frame)
    requires
        keys_ascending(es),
    ensures
        keys_ascending(map_insert(es, k, v)),
        forall|m: int|
            0 <= m < map_insert(es, k, v).len() ==> (#[trigger] map_insert(es, k, v)[m]).0 == k
                || exists|i: int| 0 <= i < es.len() && (#[trigger] es[i]).0 == map_insert(es, k, v)[m].0,
    decreases es.len(),
{
    let r = map_insert(es, k, v);
    if es.len() == 0 {
    } else if es[0].0 == k {
        assert(r =~= es.update(0, (k, v)));
        assert forall|m: int| 0 <= m < r.len() implies (#[trigger] r[m]).0 == k
            || exists|i: int| 0 <= i < es.len() && (#[trigger] es[i]).0 == r[m].0 by {
            assert(es[m].0 == r[m].0);
        }
    } else if text_less(k, es[0].0) {
        assert(r =~= seq![(k, v)] + es);
        assert forall|i: int, j: int| 0 <= i < j < r.len() implies text_less(r[i].0, r[j].0) by {
            if i == 0 {
                if j > 1 {
                    lemma_text_less_transitive(k, es[0].0, es[j - 1].0);
                }
            } else {
                assert(r[i] == es[i - 1] && r[j] == es[j - 1]);
            }
        }
        assert forall|m: int| 0 <= m < r.len() implies (#[trigger] r[m]).0 == k
            || exists|i: int| 0 <= i < es.len() && (#[trigger] es[i]).0 == r[m].0 by {
            if m > 0 {
                assert(es[m - 1].0 == r[m].0);
            }
        }
    } else {
        let tail = es.drop_first();
        assert(keys_ascending(tail)) by {
            assert forall|i: int, j: int| 0 <= i < j < tail.len() implies text_less(tail[i].0, tail[j].0) by {
                assert(tail[i] == es[i + 1] && tail[j] == es[j + 1]);
            }
        }
        lemma_map_insert_ascending(tail, k, v);
        let rt = map_insert(tail, k, v);
        assert(r =~= seq![es[0]] + rt);
        lemma_text_less_total(es[0].0, k);
        assert forall|m: int| 0 <= m < rt.len() implies text_less(es[0].0, (#[trigger] rt[m]).0) by {
            if rt[m].0 != k {
                let q = choose|q: int| 0 <= q < tail.len() && (#[trigger] tail[q]).0 == rt[m].0;
                assert(tail[q] == es[q + 1]);
            }
        }
        assert forall|i: int, j: int| 0 <= i < j < r.len() implies text_less(r[i].0, r[j].0) by {
            if i == 0 {
                assert(r[j] == rt[j - 1]);
            } else {
                assert(r[i] == rt[i - 1] && r[j] == rt[j - 1]);
            }
        }
        assert forall|m: int| 0 <= m < r.len() implies (#[trigger] r[m]).0 == k
            || exists|i: int| 0 <= i < es.len() && (#[trigger] es[i]).0 == r[m].0 by {
            if m == 0 {
                assert(es[0].0 == r[0].0);
            } else {
                assert(r[m] == rt[m - 1]);
                if rt[m - 1].0 != k {
                    let q = choose|q: int| 0 <= q < tail.len() && (#[trigger] tail[q]).0 == rt[m - 1].0;
                    assert(es[q + 1].0 == r[m].0);
                }
            }
        }
    }
}

} // verus!

verus! {

fn clone_frames(xs: &Vec<RespFrame>) -> (r: Vec<RespFrame>)
    ensures
        view_frames(r@) == view_frames(xs@),
    decreases xs@, 0nat,
{
    let mut out: Vec<RespFrame> = Vec::new();
    let mut i: usize = 0;
    while i < xs.len()
        invariant
            i <= xs.len(),
            out@.len() == i,
            forall|m: int| 0 <= m < i ==> (#[trigger] out@[m])@ == xs@[m]@,
        decreases xs.len() - i,
    {
        let c = clone_frame(&xs[i]);
        out.push(c);
        i += 1;
    }
    assert(view_frames(out@) =~= view_frames(xs@));
    out
}

fn clone_entries(es: &Vec<(String, RespFrame)>) -> (r: Vec<(String, RespFrame)>)
    ensures
        view_entries(r@) == view_entries(es@),
    decreases es@, 0nat,
{
    let mut out: Vec<(String, RespFrame)> = Vec::new();
    let mut i: usize = 0;
    while i < es.len()
        invariant
            i <= es.len(),
            out@.len() == i,
            forall|m: int| 0 <= m < i ==> (#[trigger] out@[m]).0@ == es@[m].0@ && out@[m].1@ == es@[m].1@,
        decreases es.len() - i,
    {
        let entry = &es[i];
        let c = (entry.0.clone(), clone_frame(&entry.1));
        out.push(c);
        i += 1;
    }
    assert(view_entries(out@) =~= view_entries(es@));
    out
}

/// A copy of `f`.
pub fn clone_frame(f: &RespFrame) -> (r: RespFrame)
    ensures
        r@ == f@,
    decreases f, 1nat,
{
    match f {
        RespFrame::SimpleString(s) => RespFrame::SimpleString(SimpleString(s.0.clone())),
        RespFrame::Error(e) => RespFrame::Error(SimpleError(e.0.clone())),
        RespFrame::Integer(n) => RespFrame::Integer(*n),
        RespFrame::BulkString(b) => RespFrame::BulkString(BulkString(slice_to_vec(b.0.as_slice()))),
        RespFrame::NullBulkString(_) => RespFrame::NullBulkString(RespNullBulkString),
        RespFrame::Array(a) => RespFrame::Array(RespArray(clone_frames(&a.0))),
        RespFrame::NullArray(_) => RespFrame::NullArray(RespNullArray),
        RespFrame::Null(_) => RespFrame::Null(RespNull),
        RespFrame::Boolean(b) => RespFrame::Boolean(*b),
        RespFrame::Double(d) => RespFrame::Double(RespDouble(slice_to_vec(d.0.as_slice()))),
        RespFrame::RespMap(m) => {
            proof {
                use_type_invariant(m);
            }
            RespFrame::RespMap(RespMap(clone_entries(&m.0)))
        },
        RespFrame::RespSet(s) => RespFrame::RespSet(RespSet(clone_frames(&s.0))),
    }
}

impl Clone for RespFrame {
    fn clone(&self) -> Self {
        clone_frame(self)
    }
}

} // verus!

verus! {

/// Putting a key that is not there into ascending entries keeps them ascending and adds
/// just that entry.
pub proof fn lemma_map_insert_fresh(es: Seq<(Seq<char>, Frame)>, k: Seq<char>, v: Frame)
    requires
        keys_ascending(es),
        forall|i: int| 0 <= i < es.len() ==> (#[trigger] es[i]).0 != k,
    ensures
        keys_ascending(map_insert(es, k, v)),
        forall|p: (Seq<char>, Frame)| #[trigger] map_insert(es, k, v).contains(p) <==> (es.contains(p) || p == (k, v)),
    decreases es.len(),
{
    let r = map_insert(es, k, v);
    if es.len() == 0 {
        assert forall|p: (Seq<char>, Frame)| #[trigger] r.contains(p) <==> (es.contains(p) || p == (k, v)) by {
            if r.contains(p) {
                assert(r[0] == (k, v));
            }
            if p == (k, v) {
                assert(r[0] == p);
            }
        }
    } else if text_less(k, es[0].0) {
        assert(es[0].0 != k);
        assert(r =~= seq![(k, v)] + es);
        assert forall|i: int, j: int| 0 <= i < j < r.len() implies text_less(r[i].0, r[j].0) by {
            if i == 0 {
                if j > 1 {
                    lemma_text_less_transitive(k, es[0].0, es[j - 1].0);
                }
            } else {
                assert(r[i] == es[i - 1] && r[j] == es[j - 1]);
            }
        }
        assert forall|p: (Seq<char>, Frame)| #[trigger] r.contains(p) <==> (es.contains(p) || p == (k, v)) by {
            if r.contains(p) {
                let m = choose|m: int| 0 <= m < r.len() && r[m] == p;
                if m > 0 {
                    assert(es[m - 1] == p);
                }
            }
            if es.contains(p) {
                let m = choose|m: int| 0 <= m < es.len() && es[m] == p;
                assert(r[m + 1] == p);
            }
            if p == (k, v) {
                assert(r[0] == p);
            }
        }
    } else {
        let tail = es.drop_first();
        assert(keys_ascending(tail)) by {
            assert forall|i: int, j: int| 0 <= i < j < tail.len() implies text_less(tail[i].0, tail[j].0) by {
                assert(tail[i] == es[i + 1] && tail[j] == es[j + 1]);
            }
        }
        assert forall|i: int| 0 <= i < tail.len() implies (#[trigger] tail[i]).0 != k by {
            assert(tail[i] == es[i + 1]);
        }
        lemma_map_insert_fresh(tail, k, v);
        let rt = map_insert(tail, k, v);
        assert(es[0].0 != k);
        assert(r =~= seq![es[0]] + rt);
        lemma_text_less_total(es[0].0, k);
        assert forall|m: int| 0 <= m < rt.len() implies text_less(es[0].0, (#[trigger] rt[m]).0) by {
            assert(rt.contains(rt[m]));
            if rt[m] != (k, v) {
                let q = choose|q: int| 0 <= q < tail.len() && tail[q] == rt[m];
                assert(tail[q] == es[q + 1]);
            }
        }
        assert forall|i: int, j: int| 0 <= i < j < r.len() implies text_less(r[i].0, r[j].0) by {
            if i == 0 {
                assert(r[j] == rt[j - 1]);
            } else {
                assert(r[i] == rt[i - 1] && r[j] == rt[j - 1]);
            }
        }
        assert forall|p: (Seq<char>, Frame)| #[trigger] r.contains(p) <==> (es.contains(p) || p == (k, v)) by {
            if r.contains(p) {
                let m = choose|m: int| 0 <= m < r.len() && r[m] == p;
                if m > 0 {
                    assert(rt[m - 1] == p);
                    assert(rt.contains(p));
                    if tail.contains(p) {
                        let q = choose|q: int| 0 <= q < tail.len() && tail[q] == p;
                        assert(es[q + 1] == p);
                    }
                }
            }
            if es.contains(p) {
                let m = choose|m: int| 0 <= m < es.len() && es[m] == p;
                if m > 0 {
                    assert(tail[m - 1] == p);
                    assert(tail.contains(p));
                    assert(rt.contains(p));
                    let q = choose|q: int| 0 <= q < rt.len() && rt[q] == p;
                    assert(r[q + 1] == p);
                } else {
                    assert(r[0] == p);
                }
            }
            if p == (k, v) {
                assert(rt.contains(p));
                let q = choose|q: int| 0 <= q < rt.len() && rt[q] == p;
                assert(r[q + 1] == p);
            }
        }
    }
}

} // verus!

verus! {

/// Appends the RESP bytes of a map: its entries in ascending key order.
pub(crate) fn encode_map_into(m: &RespMap, out: &mut Vec<u8>)
    ensures
        final(out)@ == old(out)@ + enc(Frame::RespMap(m.entries_view())),
        keys_ascending(m.entries_view()),
    decreases m, 0nat,
{
    proof {
        use_type_invariant(m);
    }
    let ghost start = out@;
    push_header(out, 37, m.0.len());
    push_entries(out, &m.0);
    assert(out@ =~= start + enc(Frame::RespMap(m.entries_view())));
}

} // verus!
