use vstd::prelude::*;

use crate::frame::{all_digits, is_digit, CR, LF};

verus! {

/// The decimal digits of `n`, most significant first, without leading zeros.
pub open spec fn digits_of(n: nat) -> Seq<u8>
    decreases n,
{
    if n < 10 {
        seq![(48 + n) as u8]
    } else {
        digits_of(n / 10) + seq![(48 + n % 10) as u8]
    }
}

/// The number that a run of decimal digits denotes.
pub open spec fn digits_value(b: Seq<u8>) -> nat
    decreases b.len(),
{
    if b.len() == 0 {
        0
    } else {
        digits_value(b.drop_last()) * 10 + (b.last() - 48) as nat
    }
}

/// An integer as written in RESP: an optional `+` or `-`, then at least one digit.
pub open spec fn parse_int(b: Seq<u8>) -> Option<int> {
    if b.len() > 0 && (b[0] == 43 || b[0] == 45) {
        let d = b.drop_first();
        if d.len() > 0 && all_digits(d) {
            Some(if b[0] == 45 { -digits_value(d) } else { digits_value(d) as int })
        } else {
            None
        }
    } else if b.len() > 0 && all_digits(b) {
        Some(digits_value(b) as int)
    } else {
        None
    }
}

pub open spec fn abs(n: int) -> nat {
    if n < 0 { (-n) as nat } else { n as nat }
}

/// An integer with an explicit sign: `+` when it is not negative, else `-`.
pub open spec fn signed_text(n: int) -> Seq<u8> {
    seq![if n < 0 { 45u8 } else { 43u8 }] + digits_of(abs(n))
}

pub open spec fn in_i64(n: int) -> bool {
    i64::MIN <= n <= i64::MAX
}

/// The position of the first CR LF pair that starts at or after `i`.
pub open spec fn crlf_from(s: Seq<u8>, i: int) -> Option<int>
    decreases s.len() - i,
{
    if i < 0 || i + 1 >= s.len() {
        None
    } else if s[i] == CR && s[i + 1] == LF {
        Some(i)
    } else {
        crlf_from(s, i + 1)
    }
}

/// How many decimal digits stand at the start of `b`.
pub open spec fn digit_run(b: Seq<u8>) -> nat
    decreases b.len(),
{
    if b.len() > 0 && is_digit(b[0]) {
        1 + digit_run(b.drop_first())
    } else {
        0
    }
}

/// An exponent: empty, or `e` or `E` followed by an integer.
pub open spec fn exponent_ok(b: Seq<u8>) -> bool {
    b.len() == 0 || ((b[0] == 101 || b[0] == 69) && parse_int(b.drop_first()) is Some)
}

/// An unsigned decimal: digits, an optional `.` with digits, an optional exponent.
pub open spec fn unsigned_decimal_ok(b: Seq<u8>) -> bool {
    let i = digit_run(b) as int;
    &&& i > 0
    &&& if i < b.len() && b[i] == 46 {
        let k = digit_run(b.subrange(i + 1, b.len() as int)) as int;
        k > 0 && exponent_ok(b.subrange(i + 1 + k, b.len() as int))
    } else {
        exponent_ok(b.subrange(i, b.len() as int))
    }
}

/// A double as RESP writes it, with an optional sign.
pub open spec fn decimal_ok(b: Seq<u8>) -> bool {
    if b.len() > 0 && (b[0] == 43 || b[0] == 45) {
        unsigned_decimal_ok(b.drop_first())
    } else {
        unsigned_decimal_ok(b)
    }
}

pub proof fn lemma_digits_of(n: nat)
    ensures
        digits_of(n).len() > 0,
        all_digits(digits_of(n)),
        digits_value(digits_of(n)) == n,
    decreases n,
{
    if n >= 10 {
        lemma_digits_of(n / 10);
        let d = digits_of(n);
        assert(d.drop_last() =~= digits_of(n / 10));
        assert(d.last() == (48 + n % 10) as u8);
        assert(n == (n / 10) * 10 + n % 10);
        assert(digits_value(d) == digits_value(d.drop_last()) * 10 + (d.last() - 48) as nat);
    } else {
        let d = digits_of(n);
        assert(d.drop_last() =~= Seq::<u8>::empty());
        assert(digits_value(d) == digits_value(d.drop_last()) * 10 + (d.last() - 48) as nat);
    }
}

pub proof fn lemma_parse_digits(n: nat)
    ensures
        parse_int(digits_of(n)) == Some(n as int),
{
    lemma_digits_of(n);
}

pub proof fn lemma_parse_signed(n: int)
    ensures
        parse_int(signed_text(n)) == Some(n),
        all_digits(signed_text(n).drop_first()),
        signed_text(n).len() > 1,
{
    lemma_digits_of(abs(n));
    assert(signed_text(n).drop_first() =~= digits_of(abs(n)));
}

/// Appends the decimal digits of `n`.
pub fn push_digits(out: &mut Vec<u8>, n: u64)
    ensures
        final(out)@ == old(out)@ + digits_of(n as nat),
    decreases n,
{
    if n >= 10 {
        push_digits(out, n / 10);
    }
    out.push(48 + (n % 10) as u8);
    proof {
        if n >= 10 {
            assert(final(out)@ =~= old(out)@ + digits_of(n as nat));
        }
    }
}

} // verus!

verus! {

pub proof fn lemma_digits_value_prefix(d: Seq<u8>, m: int)
    requires
        0 <= m <= d.len(),
    ensures
        digits_value(d.subrange(0, m)) <= digits_value(d),
    decreases d.len() - m,
{
    if m < d.len() {
        lemma_digits_value_prefix(d.drop_last(), m);
        assert(d.drop_last().subrange(0, m) =~= d.subrange(0, m));
    } else {
        assert(d.subrange(0, m) =~= d);
    }
}

pub proof fn lemma_crlf_from(s: Seq<u8>, i: int)
    ensures
        crlf_from(s, i) matches Some(j) ==> i <= j && j + 1 < s.len() && s[j] == CR && s[j + 1] == LF,
    decreases s.len() - i,
{
    if !(i < 0 || i + 1 >= s.len()) && !(s[i] == CR && s[i + 1] == LF) {
        lemma_crlf_from(s, i + 1);
    }
}

/// The first CR LF pair at or after `start`.
pub fn first_crlf(buf: &[u8], start: usize) -> (r: Option<usize>)
    ensures
        match crlf_from(buf@, start as int) {
            Some(j) => r == Some(j as usize),
            None => r is None,
        },
        r matches Some(j) ==> start <= j && j + 1 < buf@.len(),
{
    proof {
        lemma_crlf_from(buf@, start as int);
    }
    let mut i = start;
    while i < buf.len() && i + 1 < buf.len()
        invariant
            start <= i,
            crlf_from(buf@, start as int) == crlf_from(buf@, i as int),
        decreases buf.len() - i,
    {
        if buf[i] == CR && buf[i + 1] == LF {
            return Some(i);
        }
        i += 1;
    }
    None
}

/// The integer written in `buf[from..to]`, when there is one and it fits in an `i64`.
pub fn parse_i64(buf: &[u8], from: usize, to: usize) -> (r: Option<i64>)
    requires
        from <= to <= buf@.len(),
    ensures
        match parse_int(buf@.subrange(from as int, to as int)) {
            Some(v) => if in_i64(v) { r == Some(v as i64) } else { r is None },
            None => r is None,
        },
{
    let ghost b = buf@.subrange(from as int, to as int);
    if from == to {
        return None;
    }
    let negative = buf[from] == 45;
    let start: usize = if buf[from] == 43 || buf[from] == 45 { from + 1 } else { from };
    if start == to {
        return None;
    }
    let ghost d = buf@.subrange(start as int, to as int);
    proof {
        if start > from {
            assert(b.drop_first() =~= d);
        } else {
            assert(b =~= d);
        }
    }
    let limit: u64 = if negative { 0x8000_0000_0000_0000u64 } else { 0x7fff_ffff_ffff_ffffu64 };
    let mut acc: u64 = 0;
    let mut k = start;
    while k < to
        invariant
            start <= k <= to,
            to <= buf@.len(),
            d == buf@.subrange(start as int, to as int),
            acc as nat == digits_value(d.subrange(0, k - start)),
            acc <= limit,
            all_digits(d.subrange(0, k - start)),
            limit == if negative { 0x8000_0000_0000_0000u64 } else { 0x7fff_ffff_ffff_ffffu64 },
            b == buf@.subrange(from as int, to as int),
            b.len() > 0,
            negative == (b[0] == 45),
            if b[0] == 43 || b[0] == 45 { b.drop_first() == d } else { b == d },
        decreases to - k,
    {
        let c = buf[k];
        if !(48 <= c && c <= 57) {
            assert(d[k - start] == c);
            assert(!all_digits(d));
            return None;
        }
        let digit = (c - 48) as u64;
        proof {
            let p = d.subrange(0, k + 1 - start);
            assert(p.drop_last() =~= d.subrange(0, k - start));
            assert(p.last() == c);
            assert(all_digits(p));
        }
        if acc > (limit - digit) / 10 {
            proof {
                lemma_digits_value_prefix(d, k + 1 - start);
                assert(acc * 10 + digit > limit) by (nonlinear_arith)
                    requires
                        acc > (limit - digit) / 10,
                        digit <= 9,
                        digit <= limit,
                ;
                if all_digits(d) {
                    assert(digits_value(d) > limit);
                }
            }
            return None;
        }
        proof {
            assert(acc * 10 + digit <= limit) by (nonlinear_arith)
                requires
                    acc <= (limit - digit) / 10,
                    digit <= limit,
            ;
        }
        acc = acc * 10 + digit;
        k += 1;
    }
    assert(d.subrange(0, k - start) =~= d);
    if negative {
        if acc == 0x8000_0000_0000_0000u64 {
            Some(i64::MIN)
        } else {
            Some(-(acc as i64))
        }
    } else {
        Some(acc as i64)
    }
}

/// How many digits stand at the start of `buf[from..to]`.
pub fn digit_run_at(buf: &[u8], from: usize, to: usize) -> (r: usize)
    requires
        from <= to <= buf@.len(),
    ensures
        from <= r <= to,
        r - from == digit_run(buf@.subrange(from as int, to as int)),
{
    let mut k = from;
    while k < to && 48 <= buf[k] && buf[k] <= 57
        invariant
            from <= k <= to,
            to <= buf@.len(),
            digit_run(buf@.subrange(from as int, to as int)) == (k - from) + digit_run(
                buf@.subrange(k as int, to as int),
            ),
        decreases to - k,
    {
        assert(buf@.subrange(k as int, to as int).drop_first() =~= buf@.subrange(k + 1, to as int));
        k += 1;
    }
    k
}

fn exponent_check(buf: &[u8], from: usize, to: usize) -> (r: bool)
    requires
        from <= to <= buf@.len(),
    ensures
        r == exponent_ok(buf@.subrange(from as int, to as int)),
{
    if from == to {
        return true;
    }
    if buf[from] != 101 && buf[from] != 69 {
        return false;
    }
    assert(buf@.subrange(from as int, to as int).drop_first() =~= buf@.subrange(from + 1, to as int));
    int_syntax(buf, from + 1, to)
}

pub proof fn lemma_digit_run_all(d: Seq<u8>)
    ensures
        digit_run(d) <= d.len(),
        (digit_run(d) == d.len()) == all_digits(d),
    decreases d.len(),
{
    if d.len() > 0 {
        lemma_digit_run_all(d.drop_first());
        if is_digit(d[0]) {
            if all_digits(d.drop_first()) {
                assert forall|i: int| 0 <= i < d.len() implies is_digit(d[i]) by {
                    if i > 0 {
                        assert(d[i] == d.drop_first()[i - 1]);
                    }
                }
            } else {
                let i = choose|i: int| 0 <= i < d.drop_first().len() && !is_digit(d.drop_first()[i]);
                assert(!is_digit(d[i + 1]));
            }
        } else {
            assert(!is_digit(d[0]));
        }
    }
}

/// Whether `buf[from..to]` is an integer as RESP writes one, whatever its size.
fn int_syntax(buf: &[u8], from: usize, to: usize) -> (r: bool)
    requires
        from <= to <= buf@.len(),
    ensures
        r == (parse_int(buf@.subrange(from as int, to as int)) is Some),
{
    let ghost b = buf@.subrange(from as int, to as int);
    if from == to {
        return false;
    }
    let start: usize = if buf[from] == 43 || buf[from] == 45 { from + 1 } else { from };
    let run = digit_run_at(buf, start, to);
    proof {
        let d = buf@.subrange(start as int, to as int);
        lemma_digit_run_all(d);
        if start > from {
            assert(b.drop_first() =~= d);
        } else {
            assert(b =~= d);
        }
    }
    start < to && run == to
}

} // verus!

verus! {

fn unsigned_decimal_check(buf: &[u8], from: usize, to: usize) -> (r: bool)
    requires
        from <= to <= buf@.len(),
    ensures
        r == unsigned_decimal_ok(buf@.subrange(from as int, to as int)),
{
    let ghost b = buf@.subrange(from as int, to as int);
    let i = digit_run_at(buf, from, to);
    if i == from {
        return false;
    }
    if i < to && buf[i] == 46 {
        let k = digit_run_at(buf, i + 1, to);
        proof {
            assert(b.subrange(i - from + 1, b.len() as int) =~= buf@.subrange(i + 1, to as int));
            assert(b.subrange(k - from, b.len() as int) =~= buf@.subrange(k as int, to as int));
        }
        k > i + 1 && exponent_check(buf, k, to)
    } else {
        assert(b.subrange(i - from, b.len() as int) =~= buf@.subrange(i as int, to as int));
        exponent_check(buf, i, to)
    }
}

/// Whether `buf[from..to]` is a double as RESP writes one.
pub fn decimal_check(buf: &[u8], from: usize, to: usize) -> (r: bool)
    requires
        from <= to <= buf@.len(),
    ensures
        r == decimal_ok(buf@.subrange(from as int, to as int)),
{
    if from < to && (buf[from] == 43 || buf[from] == 45) {
        assert(buf@.subrange(from as int, to as int).drop_first() =~= buf@.subrange(
            from + 1,
            to as int,
        ));
        unsigned_decimal_check(buf, from + 1, to)
    } else {
        unsigned_decimal_check(buf, from, to)
    }
}

} // verus!

verus! {

pub proof fn all_digits_no_crlf(b: Seq<u8>)
    requires
        all_digits(b),
    ensures
        crate::frame::no_crlf(b),
{
}

} // verus!

verus! {

/// A slice holds no more than `usize::MAX` items.
pub proof fn lemma_slice_len(buf: &[u8])
    ensures
        buf@.len() <= usize::MAX,
{
    assert(buf.len() == buf@.len());
}

} // verus!

verus! {

/// The position of the `nth` CR LF pair (counting from one) among those that start at or
/// after `i`.
pub open spec fn nth_crlf_from(s: Seq<u8>, i: int, nth: nat) -> Option<int>
    decreases s.len() - i,
{
    if i < 0 || i + 1 >= s.len() || nth == 0 {
        None
    } else if s[i] == CR && s[i + 1] == LF {
        if nth == 1 {
            Some(i)
        } else {
            nth_crlf_from(s, i + 1, (nth - 1) as nat)
        }
    } else {
        nth_crlf_from(s, i + 1, nth)
    }
}

/// The position of the `nth` CR LF pair of `buf` after its first byte (the type byte).
pub fn find_crlf(buf: &[u8], nth: usize) -> (r: Option<usize>)
    ensures
        match nth_crlf_from(buf@, 1, nth as nat) {
            Some(j) => r == Some(j as usize),
            None => r is None,
        },
{
    if nth == 0 {
        return None;
    }
    let mut count: usize = 0;
    let mut i: usize = 1;
    while i < buf.len() && i + 1 < buf.len()
        invariant
            1 <= i,
            count < nth,
            nth_crlf_from(buf@, 1, nth as nat) == nth_crlf_from(buf@, i as int, (nth - count) as nat),
        decreases buf.len() - i,
    {
        if buf[i] == CR && buf[i + 1] == LF {
            count += 1;
            if count == nth {
                return Some(i);
            }
        }
        i += 1;
    }
    None
}

} // verus!
