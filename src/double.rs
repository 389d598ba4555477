use vstd::prelude::*;
use vstd::string::StringSliceAdditionalSpecFns;

use crate::frame::{all_digits, is_digit, RespDouble};
use crate::text::{in_i64, parse_i64, parse_int};

verus! {

/// Where byte `c` first stands in `b`, or the length when it does not.
pub open spec fn index_of(b: Seq<u8>, c: u8) -> nat
    decreases b.len(),
{
    if b.len() == 0 {
        0
    } else if b[0] == c {
        0
    } else {
        1 + index_of(b.drop_first(), c)
    }
}

/// A number in scientific notation as Rust's `{:e}` writes it: a sign when negative, a digit
/// (not zero, unless the number is zero and written `0e0`), a point and more digits when there
/// are any, `e`, and the exponent. It gives whether the number is negative, the digits of the
/// mantissa and the exponent.
pub open spec fn scientific_parts(t: Seq<u8>) -> Option<(bool, Seq<u8>, int)> {
    let neg = t.len() > 0 && t[0] == 45;
    let body = if neg { t.drop_first() } else { t };
    let at = index_of(body, 101) as int;
    let m = body.subrange(0, at);
    let x = body.subrange(at + 1, body.len() as int);
    if at >= body.len() || m.len() == 0 || !is_digit(m[0]) {
        None
    } else if m.len() > 1 && (m.len() < 3 || m[1] != 46 || !all_digits(m.subrange(2, m.len() as int))) {
        None
    } else {
        match parse_int(x) {
            Some(e) => if in_i64(e) && (m[0] != 48 || (m.len() == 1 && e == 0)) {
                Some((neg, if m.len() == 1 { m } else { seq![m[0]] + m.subrange(2, m.len() as int) }, e))
            } else {
                None
            },
            None => None,
        }
    }
}

/// `n` zeros.
pub open spec fn zeros(n: nat) -> Seq<u8> {
    Seq::new(n, |i: int| 48u8)
}

/// The digits `d` (the first before the point) times ten to the `e`, written out without an
/// exponent.
pub open spec fn positional(d: Seq<u8>, e: int) -> Seq<u8> {
    let k = d.len() - 1;
    if e >= k {
        d + zeros((e - k) as nat)
    } else if e >= 0 {
        d.subrange(0, e + 1) + seq![46u8] + d.subrange(e + 1, d.len() as int)
    } else {
        seq![48u8, 46u8] + zeros((-e - 1) as nat) + d
    }
}

/// Whether the number is written in scientific notation: when its magnitude is above `1e8`,
/// or below `1e-8` and not zero.
pub open spec fn needs_exponent(d: Seq<u8>, e: int) -> bool {
    ||| e > 8
    ||| (e == 8 && (d[0] > 49 || exists|i: int| 1 <= i < d.len() && d[i] != 48))
    ||| e < -8
}

/// The text of a double on the wire, from what `{:e}` wrote: with a sign always, in
/// scientific notation only for magnitudes above `1e8` or below `1e-8`.
pub open spec fn wire_double(t: Seq<u8>) -> Option<Seq<u8>> {
    match scientific_parts(t) {
        None => None,
        Some((neg, d, e)) => {
            let sign = if neg { 45u8 } else { 43u8 };
            let body = if neg { t.drop_first() } else { t };
            Some(seq![sign] + if needs_exponent(d, e) { body } else { positional(d, e) })
        },
    }
}

proof fn lemma_index_of(b: Seq<u8>, c: u8)
    ensures
        index_of(b, c) <= b.len(),
        index_of(b, c) < b.len() ==> b[index_of(b, c) as int] == c,
        forall|i: int| 0 <= i < index_of(b, c) ==> b[i] != c,
    decreases b.len(),
{
    if b.len() > 0 && b[0] != c {
        lemma_index_of(b.drop_first(), c);
        assert forall|i: int| 0 <= i < index_of(b, c) implies b[i] != c by {
            if i > 0 {
                assert(b[i] == b.drop_first()[i - 1]);
            }
        }
    }
}

fn find_byte(buf: &[u8], from: usize, c: u8) -> (r: usize)
    requires
        from <= buf@.len(),
    ensures
        r - from == index_of(buf@.subrange(from as int, buf@.len() as int), c),
        from <= r <= buf@.len(),
{
    let mut i = from;
    while i < buf.len() && buf[i] != c
        invariant
            from <= i <= buf@.len(),
            index_of(buf@.subrange(from as int, buf@.len() as int), c) == (i - from) + index_of(
                buf@.subrange(i as int, buf@.len() as int),
                c,
            ),
        decreases buf.len() - i,
    {
        assert(buf@.subrange(i as int, buf@.len() as int).drop_first() =~= buf@.subrange(i + 1, buf@.len() as int));
        i += 1;
    }
    i
}

fn push_zeros(out: &mut Vec<u8>, n: u64)
    ensures
        final(out)@ == old(out)@ + zeros(n as nat),
{
    let mut i: u64 = 0;
    while i < n
        invariant
            i <= n,
            out@ == old(out)@ + zeros(i as nat),
        decreases n - i,
    {
        out.push(48);
        assert(zeros((i + 1) as nat) =~= zeros(i as nat).push(48u8));
        i += 1;
    }
}

fn push_range(out: &mut Vec<u8>, b: &Vec<u8>, from: usize, to: usize)
    requires
        from <= to <= b@.len(),
    ensures
        final(out)@ == old(out)@ + b@.subrange(from as int, to as int),
{
    let mut i = from;
    while i < to
        invariant
            from <= i <= to,
            to <= b@.len(),
            out@ == old(out)@ + b@.subrange(from as int, i as int),
        decreases to - i,
    {
        out.push(b[i]);
        assert(b@.subrange(from as int, i + 1) =~= b@.subrange(from as int, i as int).push(b@[i as int]));
        i += 1;
    }
}

/// The parts of what `{:e}` wrote, as `scientific_parts` gives them.
fn split_scientific(t: &[u8]) -> (r: Option<(bool, Vec<u8>, i64)>)
    ensures
        match scientific_parts(t@) {
            Some((n, d, e)) => r matches Some((n2, d2, e2)) && n2 == n && d2@ == d && e2 as int == e,
            None => r is None,
        },
{
    let ghost ts = t@;
    let neg = t.len() > 0 && t[0] == 45;
    let start: usize = if neg { 1 } else { 0 };
    let ghost body = if neg { ts.drop_first() } else { ts };
    assert(body =~= ts.subrange(start as int, ts.len() as int));
    let at = find_byte(t, start, 101);
    proof {
        lemma_index_of(body, 101);
    }
    let mlen = at - start;
    let ghost m = body.subrange(0, mlen as int);
    assert(m =~= ts.subrange(start as int, at as int));
    if at >= t.len() || mlen == 0 || !(48 <= t[start] && t[start] <= 57) {
        return None;
    }
    assert(m[0] == t[start as int]);
    if mlen > 1 {
        if mlen < 3 || t[start + 1] != 46 {
            assert(m.len() < 3 || m[1] == t[start + 1]);
            return None;
        }
        let mut k = start + 2;
        while k < at
            invariant
                start + 2 <= k <= at,
                at < ts.len(),
                ts == t@,
                m == ts.subrange(start as int, at as int),
                body == if neg { ts.drop_first() } else { ts },
                neg == (ts.len() > 0 && ts[0] == 45),
                m == body.subrange(0, mlen as int),
                mlen == at - start,
                index_of(body, 101) == mlen,
                m.len() >= 3,
                m[1] == 46,
                is_digit(m[0]),
                forall|q: int| 2 <= q < k - start ==> is_digit(m[q]),
            decreases at - k,
        {
            if !(48 <= t[k] && t[k] <= 57) {
                assert(m.subrange(2, m.len() as int)[k - start - 2] == t[k as int]);
                return None;
            }
            k += 1;
        }
        assert(all_digits(m.subrange(2, m.len() as int)));
    }
    assert(body.subrange(at - start + 1, body.len() as int) =~= ts.subrange(at + 1, ts.len() as int));
    let e = match parse_i64(t, at + 1, t.len()) {
        Some(e) => e,
        None => return None,
    };
    if t[start] == 48 && !(mlen == 1 && e == 0) {
        return None;
    }
    let mut digits: Vec<u8> = Vec::new();
    digits.push(t[start]);
    if mlen > 1 {
        let mut k = start + 2;
        while k < at
            invariant
                start + 2 <= k <= at,
                at <= ts.len(),
                ts == t@,
                digits@ == seq![ts[start as int]] + ts.subrange(start + 2, k as int),
            decreases at - k,
        {
            digits.push(t[k]);
            assert(ts.subrange(start + 2, k + 1) =~= ts.subrange(start + 2, k as int).push(ts[k as int]));
            k += 1;
        }
        assert(digits@ =~= seq![m[0]] + m.subrange(2, m.len() as int));
    } else {
        assert(digits@ =~= m);
    }
    Some((neg, digits, e))
}

/// Appends `d` times ten to the `e`, written without an exponent.
fn push_positional(out: &mut Vec<u8>, digits: &Vec<u8>, e: i64)
    requires
        digits@.len() > 0,
        -8 <= e <= 8,
    ensures
        final(out)@ == old(out)@ + positional(digits@, e as int),
{
    let ghost d = digits@;
    let k = digits.len() - 1;
    if k <= 8 && e >= k as i64 {
        push_range(out, digits, 0, digits.len());
        push_zeros(out, (e - k as i64) as u64);
        assert(d.subrange(0, d.len() as int) =~= d);
        assert(final(out)@ =~= old(out)@ + positional(d, e as int));
    } else if e >= 0 {
        let point = (e + 1) as usize;
        push_range(out, digits, 0, point);
        out.push(46);
        push_range(out, digits, point, digits.len());
        assert(final(out)@ =~= old(out)@ + positional(d, e as int));
    } else {
        out.push(48);
        out.push(46);
        push_zeros(out, (-e - 1) as u64);
        push_range(out, digits, 0, digits.len());
        assert(d.subrange(0, d.len() as int) =~= d);
        assert(final(out)@ =~= old(out)@ + positional(d, e as int));
    }
}

fn has_nonzero_fraction(digits: &Vec<u8>) -> (r: bool)
    ensures
        r == exists|q: int| 1 <= q < digits@.len() && digits@[q] != 48,
{
    let mut i: usize = 1;
    while i < digits.len()
        invariant
            1 <= i,
            forall|q: int| 1 <= q < i && q < digits@.len() ==> digits@[q] == 48,
        decreases digits.len() - i,
    {
        if digits[i] != 48 {
            return true;
        }
        i += 1;
    }
    false
}

impl RespDouble {
    /// The wire form of a double from the text that Rust's `{:e}` writes for it (`1.5e8`,
    /// `-2e-9`): `None` when the text has another shape.
    pub fn from_scientific(text: &str) -> (r: Option<RespDouble>)
        ensures
            match wire_double(text.spec_bytes()) {
                Some(w) => r matches Some(x) && x.0@ == w,
                None => r is None,
            },
    {
        let t = text.as_bytes();
        let (neg, digits, e) = match split_scientific(t) {
            Some(parts) => parts,
            None => return None,
        };
        let scientific = e > 8 || (e == 8 && (digits[0] > 49 || has_nonzero_fraction(&digits))) || e < -8;
        let mut out: Vec<u8> = Vec::new();
        out.push(if neg { 45 } else { 43 });
        let start: usize = if neg { 1 } else { 0 };
        let ghost body = if neg { t@.drop_first() } else { t@ };
        if scientific {
            assert(body =~= t@.subrange(start as int, t@.len() as int));
            let mut i = start;
            while i < t.len()
                invariant
                    start <= i <= t@.len(),
                    body == t@.subrange(start as int, t@.len() as int),
                    out@ == seq![if neg { 45u8 } else { 43u8 }] + t@.subrange(start as int, i as int),
                decreases t.len() - i,
            {
                out.push(t[i]);
                assert(t@.subrange(start as int, i + 1) =~= t@.subrange(start as int, i as int).push(t@[i as int]));
                i += 1;
            }
        } else {
            push_positional(&mut out, &digits, e);
        }
        Some(RespDouble(out))
    }
}

} // verus!
