//! Characters and strings: UTF-8 widths, the character view of a string,
//! and the few calls into std's `char` and `String` that vstd leaves
//! without a specification.
use vstd::prelude::*;
use vstd::utf8::*;

verus! {

/// Number of bytes that `c` takes in UTF-8.
pub open spec fn char_width(c: char) -> nat {
    if (c as u32) < 0x80 {
        1
    } else if (c as u32) < 0x800 {
        2
    } else if (c as u32) < 0x10000 {
        3
    } else {
        4
    }
}

/// Length in bytes of the UTF-8 encoding of `s` (what `str::len` returns).
pub open spec fn byte_len(s: Seq<char>) -> nat {
    encode_utf8(s).len()
}

/// The blank symbols that separate tokens.
pub open spec fn is_blank(c: char) -> bool {
    c == ' ' || c == '\n' || c == '\t'
}

/// The ASCII characters.
pub open spec fn is_ascii_char(c: char) -> bool {
    (c as u32) < 0x80
}

pub proof fn lemma_scalar_width(c: char)
    ensures
        encode_scalar(c as u32).len() == char_width(c),
{
    char_is_scalar(c);
}

pub proof fn lemma_byte_len_cons(s: Seq<char>)
    requires
        s.len() > 0,
    ensures
        byte_len(s) == char_width(s[0]) + byte_len(s.drop_first()),
{
    lemma_scalar_width(s[0]);
}

pub proof fn lemma_byte_len_single(c: char)
    ensures
        byte_len(seq![c]) == char_width(c),
{
    lemma_byte_len_cons(seq![c]);
    assert(seq![c].drop_first() =~= Seq::<char>::empty());
}

/// A string of one character or more takes at least as many bytes as characters.
pub proof fn lemma_byte_len_bounds(s: Seq<char>)
    ensures
        s.len() <= byte_len(s) <= 4 * s.len(),
        byte_len(s) == 0 <==> s.len() == 0,
    decreases s.len(),
{
    if s.len() > 0 {
        lemma_byte_len_cons(s);
        lemma_byte_len_bounds(s.drop_first());
    }
}

/// The character view of `s`, as a vector.
pub fn chars_of(s: &str) -> (v: Vec<char>)
    ensures
        v@ == s@,
{
    let mut v: Vec<char> = Vec::new();
    for c in it: s.chars()
        invariant
            v@ == it.seq().take(it.index() as int),
    {
        v.push(c);
    }
    v
}

/// Appends `c` to `s` (std's `String::push`).
#[verifier::external_body]
pub(crate) fn push_char(s: &mut String, c: char)
    ensures
        final(s)@ == old(s)@.push(c),
{
    s.push(c);
}

/// What std's `char::is_alphanumeric` answers for `c` (Unicode's Alphabetic
/// or Numeric property).
pub uninterp spec fn alphanumeric(c: char) -> bool;

/// The ASCII letters and decimal digits.
pub open spec fn ascii_alphanumeric(c: char) -> bool {
    ('a' <= c && c <= 'z') || ('A' <= c && c <= 'Z') || ('0' <= c && c <= '9')
}

/// Calls std's `char::is_alphanumeric`; its answer is named `alphanumeric`.
/// Of an ASCII character it is true exactly for the letters and digits (no
/// other ASCII character has Unicode's Alphabetic property or a numeric
/// general category); which other characters Unicode classes as alphabetic
/// or numeric is left unsaid.
#[verifier::external_body]
pub(crate) fn is_alphanumeric(c: char) -> (r: bool)
    ensures
        r == alphanumeric(c),
        is_ascii_char(c) ==> (r <==> ascii_alphanumeric(c)),
{
    c.is_alphanumeric()
}

} // verus!

verus! {

pub proof fn lemma_byte_len_push(s: Seq<char>, c: char)
    ensures
        byte_len(s.push(c)) == byte_len(s) + char_width(c),
    decreases s.len(),
{
    if s.len() == 0 {
        assert(s.push(c) =~= seq![c]);
        lemma_byte_len_single(c);
        assert(byte_len(s) == 0);
    } else {
        lemma_byte_len_cons(s.push(c));
        lemma_byte_len_cons(s);
        assert(s.push(c).drop_first() =~= s.drop_first().push(c));
        lemma_byte_len_push(s.drop_first(), c);
    }
}

/// The byte length of the prefixes of `s` grows with their length, strictly.
pub proof fn lemma_byte_len_prefix_increasing(s: Seq<char>, k1: int, k2: int)
    requires
        0 <= k1 < k2 <= s.len(),
    ensures
        byte_len(s.take(k1)) < byte_len(s.take(k2)),
    decreases k2 - k1,
{
    assert(s.take(k2) =~= s.take(k2 - 1).push(s[k2 - 1]));
    lemma_byte_len_push(s.take(k2 - 1), s[k2 - 1]);
    if k1 < k2 - 1 {
        lemma_byte_len_prefix_increasing(s, k1, k2 - 1);
    }
}

/// The characters of `s` whose encoding is its first `n` bytes (what
/// `str::get(0..n)` returns), when `n` falls between two characters.
pub open spec fn byte_prefix(s: Seq<char>, n: int) -> Option<Seq<char>> {
    if exists|k: int| 0 <= k <= s.len() && #[trigger] byte_len(s.take(k)) == n {
        Some(s.take(choose|k: int| 0 <= k <= s.len() && #[trigger] byte_len(s.take(k)) == n))
    } else {
        None
    }
}

/// The characters of `v` that its first `n` bytes encode, if `n` falls between two characters.
pub fn prefix_by_bytes(v: &Vec<char>, n: u32) -> (r: Option<Vec<char>>)
    ensures
        match r {
            Some(p) => byte_prefix(v@, n as int) == Some(p@),
            None => byte_prefix(v@, n as int) is None,
        },
{
    let mut acc: u64 = 0;
    let mut k: usize = 0;
    let mut out: Vec<char> = Vec::new();
    proof {
        assert(v@.take(0) =~= Seq::<char>::empty());
    }
    while k < v.len() && acc < n as u64
        invariant
            k <= v.len(),
            acc as int == byte_len(v@.take(k as int)),
            out@ == v@.take(k as int),
            k > 0 ==> byte_len(v@.take(k - 1)) < n,
            acc <= u32::MAX + 4,
        decreases v.len() - k,
    {
        let c = v[k];
        proof {
            assert(v@.take(k + 1) =~= v@.take(k as int).push(c));
            lemma_byte_len_push(v@.take(k as int), c);
        }
        let u = c as u32;
        let w: u64 = if u < 0x80 {
            1
        } else if u < 0x800 {
            2
        } else if u < 0x10000 {
            3
        } else {
            4
        };
        acc = acc + w;
        out.push(c);
        k = k + 1;
    }
    if acc == n as u64 {
        proof {
            let j = choose|j: int| 0 <= j <= v@.len() && #[trigger] byte_len(v@.take(j)) == n;
            if j < k {
                lemma_byte_len_prefix_increasing(v@, j, k as int);
            } else if j > k {
                lemma_byte_len_prefix_increasing(v@, k as int, j);
            }
        }
        Some(out)
    } else {
        proof {
            assert forall|j: int| 0 <= j <= v@.len() implies #[trigger] byte_len(v@.take(j)) != n by {
                if j < k {
                    if j < k - 1 {
                        lemma_byte_len_prefix_increasing(v@, j, k - 1);
                    }
                } else if j > k {
                    lemma_byte_len_prefix_increasing(v@, k as int, j);
                }
            }
        }
        None
    }
}

/// Whether `s` spells `word`.
pub fn is_word(s: &String, word: &str) -> (r: bool)
    ensures
        r == (s@ == word@),
{
    let a = chars_of(s.as_str());
    let b = chars_of(word);
    if a.len() != b.len() {
        return false;
    }
    let mut i: usize = 0;
    while i < a.len()
        invariant
            i <= a.len(),
            a.len() == b.len(),
            a@ == s@,
            b@ == word@,
            forall|j: int| 0 <= j < i ==> a@[j] == b@[j],
        decreases a.len() - i,
    {
        if a[i] != b[i] {
            assert(a@[i as int] != b@[i as int]);
            return false;
        }
        i = i + 1;
    }
    assert(a@ =~= b@);
    true
}

/// The decimal digit that stands for `d`, for `d` below ten.
pub open spec fn digit_char(d: int) -> char {
    if d == 0 {
        '0'
    } else if d == 1 {
        '1'
    } else if d == 2 {
        '2'
    } else if d == 3 {
        '3'
    } else if d == 4 {
        '4'
    } else if d == 5 {
        '5'
    } else if d == 6 {
        '6'
    } else if d == 7 {
        '7'
    } else if d == 8 {
        '8'
    } else {
        '9'
    }
}

/// The decimal spelling of `n`, without leading zeros.
pub open spec fn decimal(n: nat) -> Seq<char>
    decreases n,
{
    if n < 10 {
        seq![digit_char(n as int)]
    } else {
        decimal(n / 10).push(digit_char((n % 10) as int))
    }
}

/// The decimal spelling of `i`, with a minus sign before a negative number
/// (what `to_string` gives for an integer).
pub open spec fn int_text(i: int) -> Seq<char> {
    if i < 0 {
        seq!['-'] + decimal((-i) as nat)
    } else {
        decimal(i as nat)
    }
}

fn digit(d: u64) -> (c: char)
    requires
        d < 10,
    ensures
        c == digit_char(d as int),
{
    match d {
        0 => '0',
        1 => '1',
        2 => '2',
        3 => '3',
        4 => '4',
        5 => '5',
        6 => '6',
        7 => '7',
        8 => '8',
        _ => '9',
    }
}

fn push_decimal(s: &mut String, n: u64)
    ensures
        final(s)@ == old(s)@ + decimal(n as nat),
    decreases n,
{
    let ghost before = s@;
    if n >= 10 {
        push_decimal(s, n / 10);
    }
    push_char(s, digit(n % 10));
    proof {
        if n >= 10 {
            assert(s@ =~= before + decimal(n as nat));
        } else {
            assert(s@ =~= before + decimal(n as nat));
        }
    }
}

/// The decimal spelling of `i`.
pub fn int_to_text(i: i64) -> (s: String)
    ensures
        s@ == int_text(i as int),
{
    let mut s = String::new();
    if i < 0 {
        push_char(&mut s, '-');
        let m: u64 = if i == i64::MIN {
            9223372036854775808u64
        } else {
            (-i) as u64
        };
        push_decimal(&mut s, m);
    } else {
        push_decimal(&mut s, i as u64);
    }
    s
}

} // verus!
