//! Which texts std's `FromStr` reads as a `u64`, an `i64` or an `f64`
//! (the grammars of their documentation), and the integer they denote.
use vstd::prelude::*;

verus! {

pub open spec fn is_digit(c: char) -> bool {
    48 <= (c as u32) && (c as u32) <= 57
}

pub open spec fn digit_value(c: char) -> nat {
    ((c as u32) - 48) as nat
}

pub open spec fn all_digits(s: Seq<char>) -> bool {
    forall|i: int| 0 <= i < s.len() ==> #[trigger] is_digit(s[i])
}

/// The number written by the decimal digits `s`.
pub open spec fn digits_value(s: Seq<char>) -> nat
    decreases s.len(),
{
    if s.len() == 0 {
        0
    } else {
        digits_value(s.drop_last()) * 10 + digit_value(s.last())
    }
}

pub open spec fn is_sign(c: char) -> bool {
    c == '+' || c == '-'
}

/// `s` without its leading `+`, if it has one.
pub open spec fn unsigned_body(s: Seq<char>) -> Seq<char> {
    if s.len() > 0 && s[0] == '+' {
        s.skip(1)
    } else {
        s
    }
}

/// `s` without its leading sign, if it has one.
pub open spec fn signed_body(s: Seq<char>) -> Seq<char> {
    if s.len() > 0 && is_sign(s[0]) {
        s.skip(1)
    } else {
        s
    }
}

pub open spec fn is_negative(s: Seq<char>) -> bool {
    s.len() > 0 && s[0] == '-'
}

/// `u64::from_str` succeeds on `s`: an optional `+`, then at least one
/// decimal digit, and a value that fits.
pub open spec fn is_u64_literal(s: Seq<char>) -> bool {
    let d = unsigned_body(s);
    d.len() > 0 && all_digits(d) && digits_value(d) <= u64::MAX
}

pub open spec fn u64_literal_value(s: Seq<char>) -> nat {
    digits_value(unsigned_body(s))
}

/// `i64::from_str` succeeds on `s`: an optional sign, then at least one
/// decimal digit, and a value that fits.
pub open spec fn is_i64_literal(s: Seq<char>) -> bool {
    let d = signed_body(s);
    &&& d.len() > 0
    &&& all_digits(d)
    &&& if is_negative(s) {
        digits_value(d) <= 0x8000_0000_0000_0000
    } else {
        digits_value(d) <= 0x7fff_ffff_ffff_ffff
    }
}

pub open spec fn i64_literal_value(s: Seq<char>) -> int {
    let v = digits_value(signed_body(s)) as int;
    if is_negative(s) {
        -v
    } else {
        v
    }
}

/// `s` is `word` (a lower-case ASCII word) in any case.
pub open spec fn is_word_ignoring_case(s: Seq<char>, word: Seq<char>) -> bool {
    &&& s.len() == word.len()
    &&& forall|i: int|
        0 <= i < s.len() ==> (#[trigger] s[i] == word[i] || (s[i] as u32) + 32 == (word[i] as u32))
}

pub open spec fn is_dot_or_digit(c: char) -> bool {
    c == '.' || is_digit(c)
}

/// `Digit+ | Digit+ '.' Digit* | Digit* '.' Digit+`
pub open spec fn is_mantissa(m: Seq<char>) -> bool {
    ||| (m.len() > 0 && all_digits(m))
    ||| exists|p: int|
        0 <= p < m.len() && m.len() >= 2 && #[trigger] m[p] == '.' && all_digits(m.take(p))
            && all_digits(m.skip(p + 1))
}

pub open spec fn is_e(c: char) -> bool {
    c == 'e' || c == 'E'
}

/// `'e' Sign? Digit+`
pub open spec fn is_exponent(e: Seq<char>) -> bool {
    &&& e.len() >= 2
    &&& is_e(e[0])
    &&& {
        let d = signed_body(e.skip(1));
        d.len() > 0 && all_digits(d)
    }
}

/// `Number ::= Mantissa Exp?`
pub open spec fn is_decimal(b: Seq<char>) -> bool {
    exists|q: int|
        0 <= q <= b.len() && #[trigger] is_mantissa(b.take(q)) && (q == b.len() || is_exponent(
            b.skip(q),
        ))
}

/// `f64::from_str` succeeds on `s`:
/// `Sign? ('inf' | 'infinity' | 'nan' | Number)`, letters in any case.
pub open spec fn is_f64_literal(s: Seq<char>) -> bool {
    let b = signed_body(s);
    ||| is_word_ignoring_case(b, seq!['i', 'n', 'f'])
    ||| is_word_ignoring_case(b, seq!['i', 'n', 'f', 'i', 'n', 'i', 't', 'y'])
    ||| is_word_ignoring_case(b, seq!['n', 'a', 'n'])
    ||| is_decimal(b)
}

pub fn is_digit_char(c: char) -> (r: bool)
    ensures
        r == is_digit(c),
{
    let u = c as u32;
    48 <= u && u <= 57
}

pub proof fn lemma_digits_value_step(s: Seq<char>, i: int)
    requires
        0 <= i < s.len(),
    ensures
        digits_value(s.take(i + 1)) == digits_value(s.take(i)) * 10 + digit_value(s[i]),
{
    assert(s.take(i + 1).drop_last() =~= s.take(i));
}

/// Reads the digits of `s` from position `start` on, the value capped at 2^64.
/// `None` when there is no digit there, or a character that is not one.
fn read_digits(s: &Vec<char>, start: usize) -> (r: Option<u128>)
    requires
        start <= s.len(),
    ensures
        r is Some <==> (s@.skip(start as int).len() > 0 && all_digits(s@.skip(start as int))),
        r matches Some(v) ==> (if digits_value(s@.skip(start as int))
            < 0x1_0000_0000_0000_0000 {
            v == digits_value(s@.skip(start as int))
        } else {
            v == 0x1_0000_0000_0000_0000u128
        }),
{
    if start >= s.len() {
        return None;
    }
    let ghost d = s@.skip(start as int);
    let mut acc: u128 = 0;
    let mut i: usize = start;
    while i < s.len()
        invariant
            start <= i <= s.len(),
            d == s@.skip(start as int),
            all_digits(d.take(i - start)),
            if digits_value(d.take(i - start)) < 0x1_0000_0000_0000_0000 {
                acc == digits_value(d.take(i - start))
            } else {
                acc == 0x1_0000_0000_0000_0000u128
            },
        decreases s.len() - i,
    {
        let c = s[i];
        if !is_digit_char(c) {
            assert(d[i - start] == c);
            return None;
        }
        proof {
            lemma_digits_value_step(d, i - start);
            assert(d[i - start] == c);
        }
        let dv = (c as u32 - 48) as u128;
        if acc >= 0x1_0000_0000_0000_0000u128 {
            acc = 0x1_0000_0000_0000_0000u128;
        } else {
            acc = acc * 10 + dv;
            if acc > 0x1_0000_0000_0000_0000u128 {
                acc = 0x1_0000_0000_0000_0000u128;
            }
        }
        i = i + 1;
        assert forall|j: int| 0 <= j < d.take(i - start).len() implies #[trigger] is_digit(
            d.take(i - start)[j],
        ) by {
            if j < i - 1 - start {
                assert(d.take(i - 1 - start)[j] == d.take(i - start)[j]);
            }
        }
    }
    assert(d.take(i - start) =~= d);
    Some(acc)
}

/// Whether `u64::from_str` accepts `s`, and the value it reads.
pub fn read_u64(s: &Vec<char>) -> (r: Option<u64>)
    ensures
        r is Some <==> is_u64_literal(s@),
        r matches Some(v) ==> v == u64_literal_value(s@),
{
    let start: usize = if s.len() > 0 && s[0] == '+' {
        1
    } else {
        0
    };
    assert(unsigned_body(s@) =~= s@.skip(start as int));
    match read_digits(s, start) {
        Some(v) => {
            if v <= 0xffff_ffff_ffff_ffffu128 {
                Some(v as u64)
            } else {
                None
            }
        },
        None => None,
    }
}

/// Whether `i64::from_str` accepts `s`, and the value it reads.
pub fn read_i64(s: &Vec<char>) -> (r: Option<i64>)
    ensures
        r is Some <==> is_i64_literal(s@),
        r matches Some(v) ==> v == i64_literal_value(s@),
{
    let signed = s.len() > 0 && (s[0] == '+' || s[0] == '-');
    let negative = s.len() > 0 && s[0] == '-';
    let start: usize = if signed {
        1
    } else {
        0
    };
    assert(signed_body(s@) =~= s@.skip(start as int));
    match read_digits(s, start) {
        Some(v) => {
            if negative {
                if v <= 0x8000_0000_0000_0000u128 {
                    Some((0i128 - (v as i128)) as i64)
                } else {
                    None
                }
            } else {
                if v <= 0x7fff_ffff_ffff_ffffu128 {
                    Some(v as i64)
                } else {
                    None
                }
            }
        },
        None => None,
    }
}

} // verus!

verus! {

fn all_digits_in(s: &Vec<char>, lo: usize, hi: usize) -> (r: bool)
    requires
        lo <= hi <= s.len(),
    ensures
        r == all_digits(s@.subrange(lo as int, hi as int)),
{
    let mut i = lo;
    while i < hi
        invariant
            lo <= i <= hi <= s.len(),
            forall|j: int| lo <= j < i ==> is_digit(#[trigger] s@[j]),
        decreases hi - i,
    {
        if !is_digit_char(s[i]) {
            assert(s@.subrange(lo as int, hi as int)[i - lo] == s@[i as int]);
            return false;
        }
        i = i + 1;
    }
    assert forall|j: int| 0 <= j < s@.subrange(lo as int, hi as int).len() implies #[trigger] is_digit(
        s@.subrange(lo as int, hi as int)[j],
    ) by {
        assert(s@.subrange(lo as int, hi as int)[j] == s@[lo + j]);
    }
    true
}

proof fn lemma_mantissa_chars(m: Seq<char>)
    requires
        is_mantissa(m),
    ensures
        forall|i: int| 0 <= i < m.len() ==> #[trigger] is_dot_or_digit(m[i]),
{
    if !(m.len() > 0 && all_digits(m)) {
        let p = choose|p: int|
            0 <= p < m.len() && m.len() >= 2 && #[trigger] m[p] == '.' && all_digits(m.take(p))
                && all_digits(m.skip(p + 1));
        assert forall|i: int| 0 <= i < m.len() implies #[trigger] is_dot_or_digit(m[i]) by {
            if i < p {
                assert(m.take(p)[i] == m[i]);
            } else if i > p {
                assert(m.skip(p + 1)[i - p - 1] == m[i]);
            }
        }
    }
}

fn mantissa_ok(s: &Vec<char>, lo: usize, hi: usize) -> (r: bool)
    requires
        lo <= hi <= s.len(),
    ensures
        r == is_mantissa(s@.subrange(lo as int, hi as int)),
{
    let ghost m = s@.subrange(lo as int, hi as int);
    let mut p = lo;
    while p < hi && s[p] != '.'
        invariant
            lo <= p <= hi <= s.len(),
            forall|j: int| lo <= j < p ==> s@[j] != '.',
        decreases hi - p,
    {
        p = p + 1;
    }
    if p == hi {
        let r = hi > lo && all_digits_in(s, lo, hi);
        proof {
            assert forall|q: int| 0 <= q < m.len() implies #[trigger] m[q] != '.' by {
                assert(m[q] == s@[lo + q]);
            }
        }
        r
    } else {
        let before = all_digits_in(s, lo, p);
        let after = all_digits_in(s, p + 1, hi);
        let r = hi - lo >= 2 && before && after;
        proof {
            let k = p - lo;
            assert(m[k] == '.');
            assert(m.take(k) =~= s@.subrange(lo as int, p as int));
            assert(m.skip(k + 1) =~= s@.subrange(p + 1, hi as int));
            assert(!is_digit(m[k]));
            if r {
                assert(is_mantissa(m));
            }
            if is_mantissa(m) {
                if !(r) {
                    let q = choose|q: int|
                        0 <= q < m.len() && m.len() >= 2 && #[trigger] m[q] == '.' && all_digits(
                            m.take(q),
                        ) && all_digits(m.skip(q + 1));
                    if q < k {
                        assert(m[q] == s@[lo + q]);
                    } else if q > k {
                        assert(m.take(q)[k] == m[k]);
                    }
                }
            }
        }
        r
    }
}

fn exponent_ok(s: &Vec<char>, q: usize) -> (r: bool)
    requires
        q <= s.len(),
    ensures
        r == is_exponent(s@.skip(q as int)),
{
    let ghost e = s@.skip(q as int);
    if s.len() - q < 2 {
        return false;
    }
    if !(s[q] == 'e' || s[q] == 'E') {
        return false;
    }
    let start: usize = if s[q + 1] == '+' || s[q + 1] == '-' {
        q + 2
    } else {
        q + 1
    };
    assert(signed_body(e.skip(1)) =~= s@.subrange(start as int, s.len() as int));
    start < s.len() && all_digits_in(s, start, s.len())
}

fn decimal_ok(s: &Vec<char>, lo: usize) -> (r: bool)
    requires
        lo <= s.len(),
    ensures
        r == is_decimal(s@.skip(lo as int)),
{
    let ghost b = s@.skip(lo as int);
    let mut q = lo;
    while q < s.len() && !(s[q] == 'e' || s[q] == 'E')
        invariant
            lo <= q <= s.len(),
            forall|j: int| lo <= j < q ==> !is_e(#[trigger] s@[j]),
        decreases s.len() - q,
    {
        q = q + 1;
    }
    let k: usize = q - lo;
    let mant = mantissa_ok(s, lo, q);
    assert(b.take(k as int) =~= s@.subrange(lo as int, q as int));
    if q == s.len() {
        proof {
            if mant {
                assert(is_mantissa(b.take(k as int)));
            }
            if is_decimal(b) && !mant {
                let w = choose|w: int|
                    0 <= w <= b.len() && #[trigger] is_mantissa(b.take(w)) && (w == b.len()
                        || is_exponent(b.skip(w)));
                assert(w != b.len());
                assert(b.skip(w)[0] == s@[lo + w]);
            }
        }
        mant
    } else {
        let expo = exponent_ok(s, q);
        assert(b.skip(k as int) =~= s@.skip(q as int));
        let r = mant && expo;
        proof {
            if r {
                assert(is_mantissa(b.take(k as int)));
            }
            if is_decimal(b) && !r {
                let w = choose|w: int|
                    0 <= w <= b.len() && #[trigger] is_mantissa(b.take(w)) && (w == b.len()
                        || is_exponent(b.skip(w)));
                if w < k {
                    assert(b.skip(w)[0] == s@[lo + w]);
                } else if w > k {
                    lemma_mantissa_chars(b.take(w));
                    assert(b.take(w)[k as int] == s@[q as int]);
                    assert(is_dot_or_digit(b.take(w)[k as int]));
                }
            }
        }
        r
    }
}

fn word_ok(s: &Vec<char>, lo: usize, word: &Vec<char>) -> (r: bool)
    requires
        lo <= s.len(),
        forall|i: int| 0 <= i < word.len() ==> 97 <= #[trigger] (word@[i] as u32) <= 122,
    ensures
        r == is_word_ignoring_case(s@.skip(lo as int), word@),
{
    if s.len() - lo != word.len() {
        return false;
    }
    let mut i: usize = 0;
    while i < word.len()
        invariant
            lo <= s.len(),
            s.len() - lo == word.len(),
            0 <= i <= word.len(),
            forall|j: int| 0 <= j < i ==> (#[trigger] s@[lo + j] == word@[j] || (s@[lo + j] as u32) + 32 == (word@[j] as u32)),
        decreases word.len() - i,
    {
        let c = s[lo + i];
        let w = word[i];
        let cu = c as u32;
        let wu = w as u32;
        if !(c == w || (wu >= 32 && cu == wu - 32)) {
            assert(s@.skip(lo as int)[i as int] == c);
            return false;
        }
        i = i + 1;
    }
    assert forall|j: int| 0 <= j < s@.skip(lo as int).len() implies (#[trigger] s@.skip(lo as int)[j] == word@[j]
        || (s@.skip(lo as int)[j] as u32) + 32 == (word@[j] as u32)) by {
        assert(s@.skip(lo as int)[j] == s@[lo + j]);
    }
    true
}

/// Whether `f64::from_str` accepts `s`.
pub fn reads_as_f64(s: &Vec<char>) -> (r: bool)
    ensures
        r == is_f64_literal(s@),
{
    let lo: usize = if s.len() > 0 && (s[0] == '+' || s[0] == '-') {
        1
    } else {
        0
    };
    assert(signed_body(s@) =~= s@.skip(lo as int));
    let inf = vec!['i', 'n', 'f'];
    let infinity = vec!['i', 'n', 'f', 'i', 'n', 'i', 't', 'y'];
    let nan = vec!['n', 'a', 'n'];
    assert(inf@ =~= seq!['i', 'n', 'f']);
    assert(infinity@ =~= seq!['i', 'n', 'f', 'i', 'n', 'i', 't', 'y']);
    assert(nan@ =~= seq!['n', 'a', 'n']);
    word_ok(s, lo, &inf) || word_ok(s, lo, &infinity) || word_ok(s, lo, &nan) || decimal_ok(s, lo)
}

} // verus!
