//! Recognisers for the numeric texts that `str::parse` accepts: `u32` and
//! `f64`, following the grammars that std documents for them.

use vstd::prelude::*;

use crate::text::{digit, is_digit};

verus! {

/// ASCII lowercase of one character (other characters unchanged).
pub open spec fn ascii_lower(c: char) -> char {
    if 'A' <= c && c <= 'Z' {
        ((c as int) + 32) as char
    } else {
        c
    }
}

/// Is `s` equal to the lowercase word `w` when ASCII-lowercased?
pub open spec fn ascii_ieq(s: Seq<char>, w: Seq<char>) -> bool {
    s.len() == w.len() && forall|i: int| 0 <= i < s.len() ==> ascii_lower(#[trigger] s[i]) == w[i]
}

/// `s` with one leading `+` or `-` taken off, if it has one.
pub open spec fn without_sign(s: Seq<char>) -> Seq<char> {
    if s.len() > 0 && (s[0] == '+' || s[0] == '-') {
        s.drop_first()
    } else {
        s
    }
}

/// Only ASCII digits?
pub open spec fn all_digits(s: Seq<char>) -> bool {
    forall|i: int| 0 <= i < s.len() ==> is_digit(#[trigger] s[i])
}

/// The value of a string of ASCII digits.
pub open spec fn digits_value(s: Seq<char>) -> nat
    decreases s.len(),
{
    if s.len() == 0 {
        0
    } else {
        digits_value(s.drop_last()) * 10 + ((s.last() as int) - 48) as nat
    }
}

/// What `str::parse::<u32>` accepts: an optional `+`, then one or more
/// digits whose value fits in a `u32`.
pub open spec fn is_u32_text(s: Seq<char>) -> bool {
    let d = if s.len() > 0 && s[0] == '+' {
        s.drop_first()
    } else {
        s
    };
    d.len() > 0 && all_digits(d) && digits_value(d) <= u32::MAX
}

/// The mantissa of a decimal float: digits with at most one `.`, and at
/// least one digit (`Digit+ | Digit+ '.' Digit* | Digit* '.' Digit+`).
pub open spec fn mantissa_text(m: Seq<char>) -> bool {
    &&& forall|i: int| 0 <= i < m.len() ==> is_digit(#[trigger] m[i]) || m[i] == '.'
    &&& forall|i: int, j: int| 0 <= i < j < m.len() && #[trigger] m[i] == '.' ==> #[trigger] m[j] != '.'
    &&& exists|i: int| 0 <= i < m.len() && is_digit(#[trigger] m[i])
}

/// The exponent of a decimal float: empty, or `e` (any case), an optional
/// sign, and one or more digits.
pub open spec fn exponent_text(x: Seq<char>) -> bool {
    x.len() == 0 || (ascii_lower(x[0]) == 'e' && without_sign(x.drop_first()).len() > 0
        && all_digits(without_sign(x.drop_first())))
}

/// A decimal number: a mantissa followed by an optional exponent.
pub open spec fn number_text(t: Seq<char>) -> bool {
    exists|k: int| 0 <= k <= t.len() && #[trigger] mantissa_text(t.take(k)) && exponent_text(t.skip(k))
}

/// What `str::parse::<f64>` accepts: an optional sign, then `inf`,
/// `infinity`, `nan` (any case) or a decimal number.
pub open spec fn is_float_text(s: Seq<char>) -> bool {
    let t = without_sign(s);
    ascii_ieq(t, "inf"@) || ascii_ieq(t, "infinity"@) || ascii_ieq(t, "nan"@) || number_text(t)
}

fn lower(c: char) -> (r: char)
    ensures
        r == ascii_lower(c),
{
    if 'A' <= c && c <= 'Z' {
        let n: u8 = (c as u32 + 32) as u8;
        n as char
    } else {
        c
    }
}

/// Does `v[lo..]` equal the lowercase word `w` when ASCII-lowercased?
fn ieq_from(v: &Vec<char>, lo: usize, w: &str) -> (r: bool)
    requires
        lo <= v.len(),
    ensures
        r == ascii_ieq(v@.skip(lo as int), w@),
{
    let wc = crate::text::chars_of(w);
    if v.len() - lo != wc.len() {
        return false;
    }
    let mut i: usize = 0;
    while i < wc.len()
        invariant
            lo + wc.len() == v.len(),
            i <= wc.len(),
            wc@ == w@,
            forall|j: int| 0 <= j < i ==> ascii_lower(v@.skip(lo as int)[j]) == wc@[j],
        decreases wc.len() - i,
    {
        if lower(v[lo + i]) != wc[i] {
            assert(ascii_lower(v@.skip(lo as int)[i as int]) != w@[i as int]);
            return false;
        }
        i += 1;
    }
    true
}

/// Is `v` a text `str::parse::<u32>` accepts?
pub fn u32_text(v: &Vec<char>) -> (r: bool)
    ensures
        r == is_u32_text(v@),
{
    let lo: usize = if v.len() > 0 && v[0] == '+' {
        1
    } else {
        0
    };
    let ghost d = v@.skip(lo as int);
    assert(d =~= (if v@.len() > 0 && v@[0] == '+' {
        v@.drop_first()
    } else {
        v@
    }));
    if lo >= v.len() {
        return false;
    }
    let mut acc: u64 = 0;
    let mut i = lo;
    while i < v.len()
        invariant
            lo <= i <= v.len(),
            d == v@.skip(lo as int),
            d == (if v@.len() > 0 && v@[0] == '+' {
                v@.drop_first()
            } else {
                v@
            }),
            all_digits(v@.subrange(lo as int, i as int)),
            acc == digits_value(v@.subrange(lo as int, i as int)),
            acc <= u32::MAX,
        decreases v.len() - i,
    {
        let c = v[i];
        if !('0' <= c && c <= '9') {
            assert(d[i - lo] == c);
            assert(!is_digit(d[i - lo]));
            return false;
        }
        let ghost prev = v@.subrange(lo as int, i as int);
        let ghost next = v@.subrange(lo as int, i + 1);
        assert(next.drop_last() =~= prev);
        let dv: u64 = (c as u32 - 48) as u64;
        let n = acc * 10 + dv;
        assert(digits_value(next) == digits_value(prev) * 10 + dv);
        if n > 4294967295 {
            proof {
                if all_digits(d) {
                    lemma_prefix_value_bound(d, (i + 1 - lo) as nat);
                    assert(d.take(i + 1 - lo) =~= next);
                }
            }
            return false;
        }
        acc = n;
        i += 1;
    }
    assert(v@.subrange(lo as int, v.len() as int) =~= d);
    true
}

/// A longer digit string is worth at least as much as its prefix.
proof fn lemma_prefix_value_bound(d: Seq<char>, k: nat)
    requires
        k <= d.len(),
        all_digits(d),
    ensures
        digits_value(d.take(k as int)) <= digits_value(d),
    decreases d.len() - k,
{
    if k < d.len() {
        lemma_prefix_value_bound(d, k + 1);
        assert(d.take(k + 1 as int).drop_last() =~= d.take(k as int));
        assert(is_digit(d[k as int]));
    } else {
        assert(d.take(k as int) =~= d);
    }
}

/// Is `v[lo..hi]` a decimal mantissa?
fn mantissa_exec(v: &Vec<char>, lo: usize, hi: usize) -> (r: bool)
    requires
        lo <= hi <= v.len(),
    ensures
        r == mantissa_text(v@.subrange(lo as int, hi as int)),
{
    let ghost m = v@.subrange(lo as int, hi as int);
    let mut dots: usize = 0;
    let mut digits: bool = false;
    let mut i = lo;
    let ghost mut dot_at: int = -1;
    while i < hi
        invariant
            lo <= i <= hi <= v.len(),
            m == v@.subrange(lo as int, hi as int),
            forall|j: int| 0 <= j < i - lo ==> is_digit(#[trigger] m[j]) || m[j] == '.',
            dots <= 1,
            dots == 0 ==> forall|j: int| 0 <= j < i - lo ==> #[trigger] m[j] != '.',
            dots == 1 ==> 0 <= dot_at < i - lo && m[dot_at] == '.' && forall|j: int|
                0 <= j < i - lo && j != dot_at ==> #[trigger] m[j] != '.',
            digits == exists|j: int| 0 <= j < i - lo && is_digit(#[trigger] m[j]),
        decreases hi - i,
    {
        let c = v[i];
        assert(m[i - lo] == c);
        if c == '.' {
            if dots == 1 {
                assert(m[dot_at] == '.' && m[i - lo] == '.');
                return false;
            }
            dots = 1;
            proof {
                dot_at = i - lo;
            }
        } else if '0' <= c && c <= '9' {
            digits = true;
        } else {
            return false;
        }
        i += 1;
    }
    digits
}

/// Is `v[lo..]` a decimal exponent (or empty)?
fn exponent_exec(v: &Vec<char>, lo: usize) -> (r: bool)
    requires
        lo <= v.len(),
    ensures
        r == exponent_text(v@.skip(lo as int)),
{
    let ghost x = v@.skip(lo as int);
    if lo == v.len() {
        return true;
    }
    if lower(v[lo]) != 'e' {
        return false;
    }
    let mut i = lo + 1;
    if i < v.len() && (v[i] == '+' || v[i] == '-') {
        i += 1;
    }
    let ghost y = without_sign(x.drop_first());
    assert(y =~= v@.skip(i as int));
    if i == v.len() {
        return false;
    }
    let start = i;
    while i < v.len()
        invariant
            lo < start <= i <= v.len(),
            y == v@.skip(start as int),
            y == without_sign(v@.skip(lo as int).drop_first()),
            forall|j: int| 0 <= j < i - start ==> is_digit(#[trigger] y[j]),
        decreases v.len() - i,
    {
        if !('0' <= v[i] && v[i] <= '9') {
            assert(y[i - start] == v[i as int]);
            assert(!is_digit(y[i - start]));
            return false;
        }
        i += 1;
    }
    true
}

/// Is `v[lo..]` a decimal number (mantissa and optional exponent)?
fn number_exec(v: &Vec<char>, lo: usize) -> (r: bool)
    requires
        lo <= v.len(),
    ensures
        r == number_text(v@.skip(lo as int)),
{
    let ghost t = v@.skip(lo as int);
    let mut k = lo;
    while k < v.len() && lower(v[k]) != 'e'
        invariant
            lo <= k <= v.len(),
            forall|j: int| lo <= j < k ==> ascii_lower(#[trigger] v@[j]) != 'e',
        decreases v.len() - k,
    {
        k += 1;
    }
    let m = mantissa_exec(v, lo, k);
    let e = exponent_exec(v, k);
    proof {
        let kk = k - lo;
        assert(t.take(kk) =~= v@.subrange(lo as int, k as int));
        assert(t.skip(kk) =~= v@.skip(k as int));
        if m && e {
            assert(mantissa_text(t.take(kk)) && exponent_text(t.skip(kk)));
        }
        if number_text(t) {
            let w = choose|w: int| 0 <= w <= t.len() && #[trigger] mantissa_text(t.take(w)) && exponent_text(t.skip(w));
            if w < kk {
                assert(t.skip(w).len() > 0);
                assert(t.skip(w)[0] == v@[lo + w]);
                assert(ascii_lower(v@[lo + w]) != 'e');
            } else if w > kk {
                assert(t.take(w)[kk] == v@[k as int]);
                assert(is_digit(t.take(w)[kk]) || t.take(w)[kk] == '.');
            }
            assert(w == kk);
        }
    }
    m && e
}

/// Is `v` a text `str::parse::<f64>` accepts?
pub fn float_text(v: &Vec<char>) -> (r: bool)
    ensures
        r == is_float_text(v@),
{
    let lo: usize = if v.len() > 0 && (v[0] == '+' || v[0] == '-') {
        1
    } else {
        0
    };
    assert(v@.skip(lo as int) =~= without_sign(v@));
    ieq_from(v, lo, "inf") || ieq_from(v, lo, "infinity") || ieq_from(v, lo, "nan") || number_exec(
        v,
        lo,
    )
}

} // verus!
