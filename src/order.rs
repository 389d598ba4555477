use vstd::prelude::*;
use vstd::utf8::{decode_utf8, encode_utf8, encode_utf8_decode_utf8};

use crate::frame::{bytes_less, text_less};

verus! {

pub proof fn lemma_bytes_less_irreflexive(a: Seq<u8>)
    ensures
        !bytes_less(a, a),
    decreases a.len(),
{
    if a.len() > 0 {
        lemma_bytes_less_irreflexive(a.drop_first());
    }
}

pub proof fn lemma_bytes_less_asymmetric(a: Seq<u8>, b: Seq<u8>)
    requires
        bytes_less(a, b),
    ensures
        !bytes_less(b, a),
    decreases a.len(),
{
    if a.len() > 0 && b.len() > 0 && a[0] == b[0] {
        lemma_bytes_less_asymmetric(a.drop_first(), b.drop_first());
    }
}

pub proof fn lemma_bytes_less_transitive(a: Seq<u8>, b: Seq<u8>, c: Seq<u8>)
    requires
        bytes_less(a, b),
        bytes_less(b, c),
    ensures
        bytes_less(a, c),
    decreases a.len(),
{
    if a.len() > 0 && b.len() > 0 && c.len() > 0 && a[0] == b[0] && b[0] == c[0] {
        lemma_bytes_less_transitive(a.drop_first(), b.drop_first(), c.drop_first());
    }
}

pub proof fn lemma_bytes_less_total(a: Seq<u8>, b: Seq<u8>)
    requires
        a != b,
    ensures
        bytes_less(a, b) || bytes_less(b, a),
    decreases a.len(),
{
    if a.len() > 0 && b.len() > 0 && a[0] == b[0] {
        if a.drop_first() == b.drop_first() {
            assert(a =~= seq![a[0]] + a.drop_first());
            assert(b =~= seq![b[0]] + b.drop_first());
        }
        lemma_bytes_less_total(a.drop_first(), b.drop_first());
    } else if a.len() == 0 && b.len() == 0 {
        assert(a =~= b);
    }
}

/// Text is determined by its UTF-8 bytes.
pub proof fn lemma_utf8_injective(a: Seq<char>, b: Seq<char>)
    requires
        encode_utf8(a) == encode_utf8(b),
    ensures
        a == b,
{
    encode_utf8_decode_utf8(a);
    encode_utf8_decode_utf8(b);
}

pub proof fn lemma_text_less_irreflexive(a: Seq<char>)
    ensures
        !text_less(a, a),
{
    lemma_bytes_less_irreflexive(encode_utf8(a));
}

pub proof fn lemma_text_less_asymmetric(a: Seq<char>, b: Seq<char>)
    requires
        text_less(a, b),
    ensures
        !text_less(b, a),
        a != b,
{
    lemma_bytes_less_asymmetric(encode_utf8(a), encode_utf8(b));
    lemma_bytes_less_irreflexive(encode_utf8(a));
}

pub proof fn lemma_text_less_total(a: Seq<char>, b: Seq<char>)
    requires
        a != b,
    ensures
        text_less(a, b) || text_less(b, a),
{
    if encode_utf8(a) == encode_utf8(b) {
        lemma_utf8_injective(a, b);
    }
    lemma_bytes_less_total(encode_utf8(a), encode_utf8(b));
}

pub proof fn lemma_text_less_transitive(a: Seq<char>, b: Seq<char>, c: Seq<char>)
    requires
        text_less(a, b),
        text_less(b, c),
    ensures
        text_less(a, c),
{
    lemma_bytes_less_transitive(encode_utf8(a), encode_utf8(b), encode_utf8(c));
}

/// Compares two byte strings: `-1` when `a` comes first, `0` when equal, `1` when `b` comes first.
pub fn compare_bytes(a: &[u8], b: &[u8]) -> (r: i8)
    ensures
        (r == -1) == bytes_less(a@, b@),
        (r == 0) == (a@ == b@),
        (r == 1) == bytes_less(b@, a@),
        -1 <= r <= 1,
{
    let mut i: usize = 0;
    assert(a@.subrange(0, a@.len() as int) =~= a@);
    assert(b@.subrange(0, b@.len() as int) =~= b@);
    while i < a.len() && i < b.len() && a[i] == b[i]
        invariant
            i <= a.len(),
            i <= b.len(),
            a@.subrange(0, i as int) == b@.subrange(0, i as int),
            bytes_less(a@, b@) == bytes_less(a@.subrange(i as int, a@.len() as int), b@.subrange(i as int, b@.len() as int)),
            bytes_less(b@, a@) == bytes_less(b@.subrange(i as int, b@.len() as int), a@.subrange(i as int, a@.len() as int)),
        decreases a.len() - i,
    {
        proof {
            let ra = a@.subrange(i as int, a@.len() as int);
            let rb = b@.subrange(i as int, b@.len() as int);
            assert(ra.drop_first() =~= a@.subrange(i + 1, a@.len() as int));
            assert(rb.drop_first() =~= b@.subrange(i + 1, b@.len() as int));
            assert(a@.subrange(0, i + 1) =~= a@.subrange(0, i as int).push(a[i as int]));
            assert(b@.subrange(0, i + 1) =~= b@.subrange(0, i as int).push(b[i as int]));
        }
        i += 1;
    }
    proof {
        lemma_bytes_less_irreflexive(a@);
        if a@ == b@ {
        } else {
            lemma_bytes_less_total(a@, b@);
            if bytes_less(a@, b@) {
                lemma_bytes_less_asymmetric(a@, b@);
            } else {
                lemma_bytes_less_asymmetric(b@, a@);
            }
        }
    }
    if i < a.len() && i < b.len() {
        if a[i] < b[i] { -1 } else { 1 }
    } else if i == a.len() && i == b.len() {
        assert(a@ =~= a@.subrange(0, i as int));
        assert(b@ =~= b@.subrange(0, i as int));
        0
    } else if i == a.len() {
        assert(a@.len() != b@.len());
        -1
    } else {
        assert(a@.len() != b@.len());
        1
    }
}

/// Compares two texts by their UTF-8 bytes.
pub fn compare_text(a: &str, b: &str) -> (r: i8)
    ensures
        (r == -1) == text_less(a@, b@),
        (r == 0) == (a@ == b@),
        (r == 1) == text_less(b@, a@),
        -1 <= r <= 1,
{
    let r = compare_bytes(a.as_bytes(), b.as_bytes());
    proof {
        if encode_utf8(a@) == encode_utf8(b@) {
            lemma_utf8_injective(a@, b@);
        }
    }
    r
}

} // verus!
