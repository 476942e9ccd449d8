//! Turns source text into tokens.
use vstd::prelude::*;
use crate::numeric::{
    is_word_ignoring_case, all_digits, digit_value, is_decimal, is_digit, digits_value, is_exponent, is_mantissa, is_digit_char, is_f64_literal, is_i64_literal, is_sign, is_u64_literal,
    i64_literal_value, read_i64, read_u64, reads_as_f64, signed_body, u64_literal_value, unsigned_body,
};
use crate::text::{
    alphanumeric, ascii_alphanumeric, byte_len, byte_prefix, char_width, prefix_by_bytes, chars_of, is_alphanumeric, is_ascii_char, is_blank,
    lemma_byte_len_bounds, lemma_byte_len_cons, push_char,
};

verus! {

/// A token of the language.
#[derive(Debug, PartialEq)]
pub enum Token {
    // symbols
    OpenParentheses,
    CloseParentheses,
    OpenSqrBrackets,
    CloseSqrBrackets,
    OpenCurlyBrackets,
    CloseCurlyBrackets,
    SemiColon,
    Comma,
    Colon,
    Hash,
    // arithmetic
    Equal,
    Plus,
    Minus,
    Times,
    Div,
    Mod,
    // bitwise arithmetic
    BitwiseAnd,
    BitwiseOr,
    BitwiseXor,
    BitwiseNot,
    // boolean arithmetic
    BoolAnd,
    BoolOr,
    BoolXor,
    // keywords
    Func,
    Let,
    StringLiteral(String),
    InvalidStringLiteral(String),
    CharLiteral(char),
    InvalidCharLiteral(char),
    // ids
    Identifier(String),
    // numbers; a float literal is kept as the text that spells it
    Uint(u64),
    Int(i64),
    Float(String),
    // errors
    Invalid,
    EOF,
    // comparisons, keywords and operators that the parser and the
    // interpreter recognise and that the lexer does not produce
    EqualTo,
    BiggerThan,
    LessThan,
    BiggerOrEqualTo,
    LessOrEqualTo,
    As,
    Const,
    Inc,
    Dec,
    If,
    Else,
    While,
    For,
    In,
}

/// The mathematical value of a [`Token`]: texts become character sequences.
pub enum SpecToken {
    OpenParentheses,
    CloseParentheses,
    OpenSqrBrackets,
    CloseSqrBrackets,
    OpenCurlyBrackets,
    CloseCurlyBrackets,
    SemiColon,
    Comma,
    Colon,
    Hash,
    Equal,
    Plus,
    Minus,
    Times,
    Div,
    Mod,
    BitwiseAnd,
    BitwiseOr,
    BitwiseXor,
    BitwiseNot,
    BoolAnd,
    BoolOr,
    BoolXor,
    Func,
    Let,
    StringLiteral(Seq<char>),
    InvalidStringLiteral(Seq<char>),
    CharLiteral(char),
    InvalidCharLiteral(char),
    Identifier(Seq<char>),
    Uint(u64),
    Int(i64),
    Float(Seq<char>),
    Invalid,
    EOF,
    EqualTo,
    BiggerThan,
    LessThan,
    BiggerOrEqualTo,
    LessOrEqualTo,
    As,
    Const,
    Inc,
    Dec,
    If,
    Else,
    While,
    For,
    In,
}

impl View for Token {
    type V = SpecToken;

    open spec fn view(&self) -> SpecToken {
        match self {
            Token::OpenParentheses => SpecToken::OpenParentheses,
            Token::CloseParentheses => SpecToken::CloseParentheses,
            Token::OpenSqrBrackets => SpecToken::OpenSqrBrackets,
            Token::CloseSqrBrackets => SpecToken::CloseSqrBrackets,
            Token::OpenCurlyBrackets => SpecToken::OpenCurlyBrackets,
            Token::CloseCurlyBrackets => SpecToken::CloseCurlyBrackets,
            Token::SemiColon => SpecToken::SemiColon,
            Token::Comma => SpecToken::Comma,
            Token::Colon => SpecToken::Colon,
            Token::Hash => SpecToken::Hash,
            Token::Equal => SpecToken::Equal,
            Token::Plus => SpecToken::Plus,
            Token::Minus => SpecToken::Minus,
            Token::Times => SpecToken::Times,
            Token::Div => SpecToken::Div,
            Token::Mod => SpecToken::Mod,
            Token::BitwiseAnd => SpecToken::BitwiseAnd,
            Token::BitwiseOr => SpecToken::BitwiseOr,
            Token::BitwiseXor => SpecToken::BitwiseXor,
            Token::BitwiseNot => SpecToken::BitwiseNot,
            Token::BoolAnd => SpecToken::BoolAnd,
            Token::BoolOr => SpecToken::BoolOr,
            Token::BoolXor => SpecToken::BoolXor,
            Token::Func => SpecToken::Func,
            Token::Let => SpecToken::Let,
            Token::StringLiteral(s) => SpecToken::StringLiteral(s@),
            Token::InvalidStringLiteral(s) => SpecToken::InvalidStringLiteral(s@),
            Token::CharLiteral(c) => SpecToken::CharLiteral(*c),
            Token::InvalidCharLiteral(c) => SpecToken::InvalidCharLiteral(*c),
            Token::Identifier(s) => SpecToken::Identifier(s@),
            Token::Uint(v) => SpecToken::Uint(*v),
            Token::Int(v) => SpecToken::Int(*v),
            Token::Float(s) => SpecToken::Float(s@),
            Token::Invalid => SpecToken::Invalid,
            Token::EOF => SpecToken::EOF,
            Token::EqualTo => SpecToken::EqualTo,
            Token::BiggerThan => SpecToken::BiggerThan,
            Token::LessThan => SpecToken::LessThan,
            Token::BiggerOrEqualTo => SpecToken::BiggerOrEqualTo,
            Token::LessOrEqualTo => SpecToken::LessOrEqualTo,
            Token::As => SpecToken::As,
            Token::Const => SpecToken::Const,
            Token::Inc => SpecToken::Inc,
            Token::Dec => SpecToken::Dec,
            Token::If => SpecToken::If,
            Token::Else => SpecToken::Else,
            Token::While => SpecToken::While,
            Token::For => SpecToken::For,
            Token::In => SpecToken::In,
        }
    }
}

/// The error of [`Token::from_str`]: the text is no token.
#[derive(Debug)]
pub struct TokenParseErr;

/// The value of a sequence of tokens.
pub open spec fn tokens_view(v: Seq<Token>) -> Seq<SpecToken> {
    v.map_values(|t: Token| t@)
}

/// The value of what [`Token::from_str`] returns: `None` for an error.
pub open spec fn parsed_view(r: Result<Token, TokenParseErr>) -> Option<SpecToken> {
    match r {
        Ok(t) => Some(t@),
        Err(_) => None,
    }
}

/// `s.chars().nth_back(k)`
pub open spec fn nth_back(s: Seq<char>, k: int) -> Option<char> {
    if 0 <= k < s.len() {
        Some(s[s.len() - 1 - k])
    } else {
        None
    }
}

/// `s` starts with a double quote.
pub open spec fn quote_at_start(s: Seq<char>) -> bool {
    s.len() > 0 && s[0] == '"'
}

/// The closing double quote of `s` is not escaped by a single backslash.
pub open spec fn closing_quote(s: Seq<char>) -> bool {
    &&& s.len() > 0
    &&& s.last() == '"'
    &&& (nth_back(s, 1) != Some('\\') || nth_back(s, 2) == Some('\\'))
}

/// A string literal: opening and closing double quotes that are not the same one.
pub open spec fn spec_is_str_literal(s: Seq<char>) -> bool {
    quote_at_start(s) && closing_quote(s) && byte_len(s) >= 2
}

/// A string literal that is not closed yet.
pub open spec fn spec_is_invalid_str_literal(s: Seq<char>) -> bool {
    &&& quote_at_start(s)
    &&& (!(s.len() > 0 && s.last() == '"') || (nth_back(s, 1) == Some('\\') && nth_back(
        s,
        2,
    ) != Some('\\')))
    &&& byte_len(s) >= 2
}

/// One character that takes three or four bytes: `is_char_literal` fails on it.
pub open spec fn lone_wide_char(s: Seq<char>) -> bool {
    s.len() == 1 && byte_len(s) >= 3
}

/// A character literal: three or four bytes between single quotes, where the
/// four-byte form has a single quote as its second character.
pub open spec fn spec_is_char_literal(s: Seq<char>) -> bool {
    if !(3 <= byte_len(s) <= 4) {
        false
    } else if byte_len(s) == 4 && s[1] != '\'' {
        false
    } else {
        s[0] == '\'' && s.last() == '\''
    }
}

/// A character literal that is not closed: at most four bytes, opened by a
/// single quote that does not close it.
pub open spec fn spec_is_invalid_char_literal(s: Seq<char>) -> bool {
    if !(0 < byte_len(s) <= 4) {
        false
    } else {
        s[0] == '\'' && !(s.last() == '\'' && byte_len(s) >= 2)
    }
}

/// The character that the escape `\ch` stands for.
pub open spec fn spec_get_escape(ch: char) -> char {
    if ch == 'n' {
        '\n'
    } else if ch == 'r' {
        '\r'
    } else if ch == '0' {
        '\0'
    } else {
        ch
    }
}

/// `s` with each escape `\x` replaced by the character it stands for.
pub open spec fn unescape(s: Seq<char>) -> Seq<char>
    decreases s.len(),
{
    if s.len() == 0 {
        s
    } else if s[0] == '\\' && s.len() >= 2 {
        seq![spec_get_escape(s[1])] + unescape(s.skip(2))
    } else {
        seq![s[0]] + unescape(s.skip(1))
    }
}

/// Every backslash of `s` that starts an escape has a character after it.
pub open spec fn escapes_complete(s: Seq<char>) -> bool
    decreases s.len(),
{
    if s.len() == 0 {
        true
    } else if s[0] == '\\' {
        s.len() >= 2 && escapes_complete(s.skip(2))
    } else {
        escapes_complete(s.skip(1))
    }
}

pub open spec fn all_ascii(s: Seq<char>) -> bool {
    forall|i: int| 0 <= i < s.len() ==> #[trigger] is_ascii_char(s[i])
}

/// The text between the quotes of a string literal.
pub open spec fn literal_content(s: Seq<char>) -> Seq<char> {
    s.subrange(1, s.len() - 1)
}

/// `str_literal_process` returns normally on `s`: it fails on a string
/// literal whose content holds a non-ASCII character (it walks it with byte
/// positions as character positions) or ends in an unfinished escape.
pub open spec fn str_literal_process_defined(s: Seq<char>) -> bool {
    spec_is_str_literal(s) ==> (all_ascii(literal_content(s)) && escapes_complete(
        literal_content(s),
    ))
}

/// The text a string literal denotes: its content with escapes resolved;
/// any other text is left as it is.
pub open spec fn spec_str_literal_process(s: Seq<char>) -> Seq<char> {
    if spec_is_str_literal(s) {
        unescape(literal_content(s))
    } else {
        s
    }
}

/// The character a character literal denotes: the one before the closing
/// quote, escaped when the literal takes four bytes.
pub open spec fn spec_char_literal_process(s: Seq<char>) -> char {
    if byte_len(s) < 2 {
        '\0'
    } else {
        match nth_back(s, 1) {
            None => '\0',
            Some(ch) => if byte_len(s) == 4 {
                spec_get_escape(ch)
            } else {
                ch
            },
        }
    }
}

/// A character that may appear in an identifier.
pub open spec fn ident_char(c: char) -> bool {
    alphanumeric(c) || c == '_'
}

/// An identifier: alphanumeric characters and underscores, no prefix of
/// which reads as an `i64`.
pub open spec fn spec_is_identifier(s: Seq<char>) -> bool {
    &&& forall|i: int| 0 <= i < s.len() ==> #[trigger] ident_char(s[i])
    &&& forall|k: int| 1 <= k <= s.len() ==> !#[trigger] is_i64_literal(s.take(k))
}

pub open spec fn has_blank(s: Seq<char>) -> bool {
    exists|i: int| 0 <= i < s.len() && #[trigger] is_blank(s[i])
}

/// The symbols and keywords, spelled out.
pub open spec fn spec_symbol(s: Seq<char>) -> Option<SpecToken> {
    if s == seq!['('] {
        Some(SpecToken::OpenParentheses)
    } else if s == seq![')'] {
        Some(SpecToken::CloseParentheses)
    } else if s == seq!['['] {
        Some(SpecToken::OpenSqrBrackets)
    } else if s == seq![']'] {
        Some(SpecToken::CloseSqrBrackets)
    } else if s == seq!['{'] {
        Some(SpecToken::OpenCurlyBrackets)
    } else if s == seq!['}'] {
        Some(SpecToken::CloseCurlyBrackets)
    } else if s == seq!['#'] {
        Some(SpecToken::Hash)
    } else if s == seq![';'] {
        Some(SpecToken::SemiColon)
    } else if s == seq![','] {
        Some(SpecToken::Comma)
    } else if s == seq![':'] {
        Some(SpecToken::Colon)
    } else if s == seq!['='] {
        Some(SpecToken::Equal)
    } else if s == seq!['+'] {
        Some(SpecToken::Plus)
    } else if s == seq!['-'] {
        Some(SpecToken::Minus)
    } else if s == seq!['*'] {
        Some(SpecToken::Times)
    } else if s == seq!['/'] {
        Some(SpecToken::Div)
    } else if s == seq!['&'] {
        Some(SpecToken::BitwiseAnd)
    } else if s == seq!['|'] {
        Some(SpecToken::BitwiseOr)
    } else if s == seq!['^'] {
        Some(SpecToken::BitwiseXor)
    } else if s == seq!['!'] {
        Some(SpecToken::BitwiseNot)
    } else if s == seq!['&', '&'] {
        Some(SpecToken::BoolAnd)
    } else if s == seq!['|', '|'] {
        Some(SpecToken::BoolOr)
    } else if s == seq!['#', '#'] {
        Some(SpecToken::BoolXor)
    } else if s == seq!['f', 'u', 'n', 'c'] {
        Some(SpecToken::Func)
    } else if s == seq!['l', 'e', 't'] {
        Some(SpecToken::Let)
    } else {
        None
    }
}

/// `Token::from_str` returns normally on `s`.
pub open spec fn from_str_defined(s: Seq<char>) -> bool {
    !lone_wide_char(s) && str_literal_process_defined(s)
}

/// The token that `s` spells, if any (`None` for an error).
pub open spec fn spec_from_str(s: Seq<char>) -> Option<SpecToken> {
    if spec_is_invalid_str_literal(s) {
        Some(SpecToken::InvalidStringLiteral(s))
    } else if spec_is_str_literal(s) {
        Some(SpecToken::StringLiteral(spec_str_literal_process(s)))
    } else if spec_is_char_literal(s) {
        Some(SpecToken::CharLiteral(spec_char_literal_process(s)))
    } else if spec_is_invalid_char_literal(s) {
        Some(SpecToken::InvalidCharLiteral(spec_char_literal_process(s)))
    } else if s.len() == 0 || has_blank(s) {
        None
    } else if is_u64_literal(s) {
        Some(SpecToken::Uint(u64_literal_value(s) as u64))
    } else if is_i64_literal(s) {
        Some(SpecToken::Int(i64_literal_value(s) as i64))
    } else if is_f64_literal(s) {
        Some(SpecToken::Float(s))
    } else if spec_symbol(s) is Some {
        spec_symbol(s)
    } else if spec_is_identifier(s) {
        Some(SpecToken::Identifier(s))
    } else {
        None
    }
}

/// The number of bytes of `c` in UTF-8.
fn width_of(c: char) -> (r: usize)
    ensures
        r == char_width(c),
{
    let u = c as u32;
    if u < 0x80 {
        1
    } else if u < 0x800 {
        2
    } else if u < 0x10000 {
        3
    } else {
        4
    }
}

/// The byte length of `v`, or 5 when it is longer than that.
fn byte_len_capped(v: &Vec<char>) -> (r: usize)
    ensures
        r == if byte_len(v@) < 5 {
            byte_len(v@)
        } else {
            5
        },
{
    let mut i = v.len();
    let mut acc: usize = 0;
    assert(v@.skip(i as int) =~= Seq::<char>::empty());
    while i > 0
        invariant
            i <= v.len(),
            acc == if byte_len(v@.skip(i as int)) < 5 {
                byte_len(v@.skip(i as int))
            } else {
                5
            },
        decreases i,
    {
        proof {
            lemma_byte_len_cons(v@.skip(i - 1));
            assert(v@.skip(i - 1).drop_first() =~= v@.skip(i as int));
        }
        let w = width_of(v[i - 1]);
        acc = if acc + w < 5 {
            acc + w
        } else {
            5
        };
        i = i - 1;
    }
    assert(v@.skip(0) =~= v@);
    acc
}

/// Whether `s` is an identifier: empty, or made of alphanumeric characters
/// and underscores, the first of which is no decimal digit.
pub fn is_indentifier(s: &str) -> (r: bool)
    ensures
        r == spec_is_identifier(s@),
        r == (s@.len() == 0 || (!is_digit(s@[0]) && forall|i: int|
            0 <= i < s@.len() ==> #[trigger] ident_char(s@[i]))),
{
    let v = chars_of(s);
    let mut i: usize = 0;
    while i < v.len()
        invariant
            i <= v.len(),
            v@ == s@,
            forall|j: int| 0 <= j < i ==> #[trigger] ident_char(v@[j]),
            i > 0 ==> (is_ascii_char(v@[0]) ==> (alphanumeric(v@[0]) <==> ascii_alphanumeric(v@[0]))),
        decreases v.len() - i,
    {
        let c = v[i];
        if !(is_alphanumeric(c) || c == '_') {
            assert(!ident_char(v@[i as int]));
            return false;
        }
        i = i + 1;
    }
    let n = v.len();
    let first_digit = n > 0 && is_digit_char(v[0]);
    let signed_digit = n > 1 && (v[0] == '+' || v[0] == '-') && is_digit_char(v[1]);
    proof {
        let sq = v@;
        if first_digit {
            let p = sq.take(1);
            assert(signed_body(p) =~= p);
            assert(p.drop_last() =~= Seq::<char>::empty());
            assert(digits_value(Seq::<char>::empty()) == 0);
            assert(digits_value(p) == digit_value(sq[0]));
            assert(is_digit(p[0]));
            assert(all_digits(p));
            assert(is_i64_literal(p));
        }
        if signed_digit {
            let p = sq.take(2);
            let d = seq![sq[1]];
            assert(signed_body(p) =~= d);
            assert(d.drop_last() =~= Seq::<char>::empty());
            assert(digits_value(Seq::<char>::empty()) == 0);
            assert(digits_value(d) == digit_value(sq[1]));
            assert(is_digit(d[0]));
            assert(all_digits(d));
            assert(is_i64_literal(p));
        }
        if signed_digit {
            assert(ident_char(sq[0]));
            assert(is_ascii_char(sq[0]));
        }
        if !first_digit && !signed_digit {
            assert forall|k: int| 1 <= k <= sq.len() implies !#[trigger] is_i64_literal(sq.take(k)) by {
                let p = sq.take(k);
                let d = signed_body(p);
                if d.len() > 0 {
                    if is_sign(sq[0]) {
                        assert(d[0] == sq[1]);
                    } else {
                        assert(d[0] == sq[0]);
                    }
                }
            }
        }
    }
    !first_digit && !signed_digit
}

/// Whether `s` is a string literal.
pub fn is_str_literal(s: &str) -> (r: bool)
    ensures
        r == spec_is_str_literal(s@),
{
    let v = chars_of(s);
    let n = v.len();
    let bl = byte_len_capped(&v);
    let at_start = n > 0 && v[0] == '"';
    let escaped_once = n >= 2 && v[n - 2] == '\\' && !(n >= 3 && v[n - 3] == '\\');
    let at_end = n > 0 && v[n - 1] == '"' && !escaped_once;
    at_start && at_end && bl >= 2
}

/// Whether `s` is a string literal that is not closed yet.
pub fn is_invalid_str_literal(s: &str) -> (r: bool)
    ensures
        r == spec_is_invalid_str_literal(s@),
{
    let v = chars_of(s);
    let n = v.len();
    let bl = byte_len_capped(&v);
    let at_start = n > 0 && v[0] == '"';
    let escaped_once = n >= 2 && v[n - 2] == '\\' && !(n >= 3 && v[n - 3] == '\\');
    let not_at_end = !(n > 0 && v[n - 1] == '"') || escaped_once;
    at_start && not_at_end && bl >= 2
}

/// Whether `s` is a character literal.
pub fn is_char_literal(s: &str) -> (r: bool)
    requires
        !lone_wide_char(s@),
    ensures
        r == spec_is_char_literal(s@),
{
    let v = chars_of(s);
    let bl = byte_len_capped(&v);
    if !(3 <= bl && bl <= 4) {
        return false;
    }
    proof {
        lemma_byte_len_bounds(v@);
    }
    let is_escape_char = v[1] == '\'';
    if bl == 4 && !is_escape_char {
        return false;
    }
    v[0] == '\'' && v[v.len() - 1] == '\''
}

/// Whether `s` is a character literal that is not closed.
pub fn is_invalid_char_literal(s: &str) -> (r: bool)
    ensures
        r == spec_is_invalid_char_literal(s@),
{
    let v = chars_of(s);
    let bl = byte_len_capped(&v);
    if !(0 < bl && bl <= 4) {
        return false;
    }
    proof {
        lemma_byte_len_bounds(v@);
    }
    let at_start = v[0] == '\'';
    let at_end = v[v.len() - 1] == '\'' && bl >= 2;
    at_start && !at_end
}

/// The character that the escape `\ch` stands for.
pub fn get_escape(ch: char) -> (r: char)
    ensures
        r == spec_get_escape(ch),
{
    match ch {
        'n' => '\n',
        'r' => '\r',
        '0' => '\0',
        _ => ch,
    }
}

proof fn lemma_unescape_step(s: Seq<char>, i: int, end: int)
    requires
        0 <= i < end <= s.len(),
    ensures
        s[i] == '\\' && i + 1 < end ==> unescape(s.subrange(i, end)) == seq![
            spec_get_escape(s[i + 1]),
        ] + unescape(s.subrange(i + 2, end)),
        s[i] == '\\' && i + 1 < end ==> (escapes_complete(s.subrange(i, end)) <==> escapes_complete(
            s.subrange(i + 2, end),
        )),
        !(s[i] == '\\' && i + 1 < end) ==> unescape(s.subrange(i, end)) == seq![s[i]] + unescape(
            s.subrange(i + 1, end),
        ),
        s[i] != '\\' ==> (escapes_complete(s.subrange(i, end)) <==> escapes_complete(
            s.subrange(i + 1, end),
        )),
        s[i] == '\\' && i + 1 == end ==> !escapes_complete(s.subrange(i, end)),
{
    let t = s.subrange(i, end);
    if i + 2 <= end {
        assert(t.skip(2) =~= s.subrange(i + 2, end));
    }
    assert(t.skip(1) =~= s.subrange(i + 1, end));
}

/// The text that a string literal denotes; any other text is returned as it is.
pub fn str_literal_process(s: String) -> (r: String)
    requires
        str_literal_process_defined(s@),
    ensures
        r@ == spec_str_literal_process(s@),
{
    if !is_str_literal(s.as_str()) {
        return s;
    }
    let v = chars_of(s.as_str());
    let end = v.len() - 1;
    let ghost content = literal_content(v@);
    let mut out = String::new();
    let mut i: usize = 1;
    proof {
        if v@.len() == 1 {
            lemma_byte_len_cons(v@);
            assert(v@.drop_first() =~= Seq::<char>::empty());
        }
        assert(v@.subrange(1, end as int) =~= content);
    }
    while i < end
        invariant
            1 <= i <= end + 1,
            end == v.len() - 1,
            content == v@.subrange(1, end as int),
            i <= end ==> out@ + unescape(v@.subrange(i as int, end as int)) == unescape(content),
            i <= end ==> escapes_complete(v@.subrange(i as int, end as int)),
            i > end ==> false,
        decreases end + 1 - i,
    {
        proof {
            lemma_unescape_step(v@, i as int, end as int);
        }
        if v[i] == '\\' {
            let c = get_escape(v[i + 1]);
            let ghost before = out@;
            push_char(&mut out, c);
            proof {
                assert(out@ + unescape(v@.subrange(i + 2, end as int)) =~= before + (seq![c]
                    + unescape(v@.subrange(i + 2, end as int))));
            }
            i = i + 2;
        } else {
            let ghost before = out@;
            push_char(&mut out, v[i]);
            proof {
                assert(out@ + unescape(v@.subrange(i + 1, end as int)) =~= before + (seq![v@[i as int]]
                    + unescape(v@.subrange(i + 1, end as int))));
            }
            i = i + 1;
        }
    }
    proof {
        assert(v@.subrange(i as int, end as int) =~= Seq::<char>::empty());
        assert(out@ =~= out@ + unescape(v@.subrange(i as int, end as int)));
    }
    out
}

/// The character that a character literal denotes.
pub fn char_literal_process(s: String) -> (r: char)
    ensures
        r == spec_char_literal_process(s@),
{
    let v = chars_of(s.as_str());
    let bl = byte_len_capped(&v);
    if bl < 2 {
        return '\0';
    }
    let is_escape_char = bl == 4;
    if v.len() < 2 {
        return '\0';
    }
    let ch = v[v.len() - 2];
    if is_escape_char {
        return get_escape(ch);
    }
    ch
}

} // verus!

verus! {

fn symbol_token(v: &Vec<char>) -> (r: Option<Token>)
    ensures
        match r {
            Some(t) => spec_symbol(v@) == Some(t@),
            None => spec_symbol(v@) is None,
        },
{
    let n = v.len();
    if n == 1 {
        let c = v[0];
        assert(v@ =~= seq![c]);
        match c {
            '(' => Some(Token::OpenParentheses),
            ')' => Some(Token::CloseParentheses),
            '[' => Some(Token::OpenSqrBrackets),
            ']' => Some(Token::CloseSqrBrackets),
            '{' => Some(Token::OpenCurlyBrackets),
            '}' => Some(Token::CloseCurlyBrackets),
            '#' => Some(Token::Hash),
            ';' => Some(Token::SemiColon),
            ',' => Some(Token::Comma),
            ':' => Some(Token::Colon),
            '=' => Some(Token::Equal),
            '+' => Some(Token::Plus),
            '-' => Some(Token::Minus),
            '*' => Some(Token::Times),
            '/' => Some(Token::Div),
            '&' => Some(Token::BitwiseAnd),
            '|' => Some(Token::BitwiseOr),
            '^' => Some(Token::BitwiseXor),
            '!' => Some(Token::BitwiseNot),
            _ => None,
        }
    } else if n == 2 {
        let a = v[0];
        let b = v[1];
        assert(v@ =~= seq![a, b]);
        if a == '&' && b == '&' {
            Some(Token::BoolAnd)
        } else if a == '|' && b == '|' {
            Some(Token::BoolOr)
        } else if a == '#' && b == '#' {
            Some(Token::BoolXor)
        } else {
            None
        }
    } else if n == 3 {
        let a = v[0];
        let b = v[1];
        let c = v[2];
        assert(v@ =~= seq![a, b, c]);
        if a == 'l' && b == 'e' && c == 't' {
            Some(Token::Let)
        } else {
            None
        }
    } else if n == 4 {
        let a = v[0];
        let b = v[1];
        let c = v[2];
        let d = v[3];
        assert(v@ =~= seq![a, b, c, d]);
        if a == 'f' && b == 'u' && c == 'n' && d == 'c' {
            Some(Token::Func)
        } else {
            None
        }
    } else {
        None
    }
}

fn contains_blank(v: &Vec<char>) -> (r: bool)
    ensures
        r == has_blank(v@),
{
    let mut i: usize = 0;
    while i < v.len()
        invariant
            i <= v.len(),
            forall|j: int| 0 <= j < i ==> !#[trigger] is_blank(v@[j]),
        decreases v.len() - i,
    {
        let c = v[i];
        if c == ' ' || c == '\n' || c == '\t' {
            assert(is_blank(v@[i as int]));
            return true;
        }
        i = i + 1;
    }
    false
}

impl Token {
    /// The token that `s` spells, or an error when it spells none.
    pub fn from_str(s: &str) -> (r: Result<Token, TokenParseErr>)
        requires
            from_str_defined(s@),
        ensures
            parsed_view(r) == spec_from_str(s@),
    {
        if is_invalid_str_literal(s) {
            return Ok(Token::InvalidStringLiteral(s.to_owned()));
        }
        if is_str_literal(s) {
            return Ok(Token::StringLiteral(str_literal_process(s.to_owned())));
        }
        if is_char_literal(s) {
            return Ok(Token::CharLiteral(char_literal_process(s.to_owned())));
        }
        if is_invalid_char_literal(s) {
            return Ok(Token::InvalidCharLiteral(char_literal_process(s.to_owned())));
        }
        let v = chars_of(s);
        if v.len() == 0 || contains_blank(&v) {
            return Err(TokenParseErr);
        }
        match read_u64(&v) {
            Some(x) => {
                return Ok(Token::Uint(x));
            },
            None => {},
        }
        match read_i64(&v) {
            Some(x) => {
                return Ok(Token::Int(x));
            },
            None => {},
        }
        if reads_as_f64(&v) {
            return Ok(Token::Float(s.to_owned()));
        }
        match symbol_token(&v) {
            Some(t) => {
                return Ok(t);
            },
            None => {},
        }
        if is_indentifier(s) {
            return Ok(Token::Identifier(s.to_owned()));
        }
        Err(TokenParseErr)
    }
}

} // verus!

verus! {

/// The error of [`tokenize`]: the text left over that spells no token.
#[derive(Debug)]
pub struct TokenizationErr {
    token: String,
}

impl View for TokenizationErr {
    type V = Seq<char>;

    closed spec fn view(&self) -> Seq<char> {
        self.token@
    }
}

/// `r.unwrap_or(Token::Invalid)`
pub open spec fn or_invalid(r: Option<SpecToken>) -> SpecToken {
    match r {
        Some(t) => t,
        None => SpecToken::Invalid,
    }
}

/// One step of the lexer: the buffer and the tokens found so far, after
/// reading `symbol`.
///
/// The buffer becomes a token when adding `symbol` would make it spell
/// none, or when it is a complete string (character) literal that `symbol`
/// would turn into an unclosed one. Blanks are dropped, except inside a
/// literal.
pub open spec fn lex_step(buffer: Seq<char>, tokens: Seq<SpecToken>, symbol: char) -> (
    Seq<char>,
    Seq<SpecToken>,
) {
    let next = buffer.push(symbol);
    let current = spec_from_str(buffer);
    let following = spec_from_str(next);
    let next_buffer_invalid = current is Some && following is None;
    let string_literal = or_invalid(current) == SpecToken::StringLiteral(
        spec_str_literal_process(buffer),
    );
    let next_string_literal_invalid = or_invalid(following) == SpecToken::InvalidStringLiteral(next)
        && nth_back(next, 1) != Some('\\');
    let char_literal = or_invalid(current) == SpecToken::CharLiteral(
        spec_char_literal_process(buffer),
    );
    let next_char_literal_invalid = or_invalid(following) == SpecToken::InvalidCharLiteral(
        spec_char_literal_process(next),
    );
    let found = next_buffer_invalid || (string_literal && next_string_literal_invalid) || (
    char_literal && next_char_literal_invalid);
    let tokens2 = if found {
        tokens.push(or_invalid(current))
    } else {
        tokens
    };
    let buffer2 = if found {
        Seq::<char>::empty()
    } else {
        buffer
    };
    let skip = is_blank(symbol) && (!next_string_literal_invalid || string_literal) && (
    !next_char_literal_invalid || char_literal);
    (
        if skip {
            buffer2
        } else {
            buffer2.push(symbol)
        },
        tokens2,
    )
}

/// The buffer and the tokens after reading all of `code`.
pub open spec fn lex_run(code: Seq<char>) -> (Seq<char>, Seq<SpecToken>)
    decreases code.len(),
{
    if code.len() == 0 {
        (Seq::<char>::empty(), Seq::<SpecToken>::empty())
    } else {
        let (buffer, tokens) = lex_run(code.drop_last());
        lex_step(buffer, tokens, code.last())
    }
}

/// Every step of the lexer on `code` returns normally.
pub open spec fn lex_defined(code: Seq<char>) -> bool
    decreases code.len(),
{
    if code.len() == 0 {
        true
    } else {
        let buffer = lex_run(code.drop_last()).0;
        &&& lex_defined(code.drop_last())
        &&& from_str_defined(buffer)
        &&& from_str_defined(buffer.push(code.last()))
    }
}

/// [`tokenize`] returns normally on `code`.
pub open spec fn tokenize_defined(code: Seq<char>) -> bool {
    lex_defined(code) && from_str_defined(lex_run(code).0)
}

/// The tokens of `code`, ended by `EOF`; or the text left over when it
/// spells no token.
pub open spec fn spec_tokenize(code: Seq<char>) -> Result<Seq<SpecToken>, Seq<char>> {
    let (buffer, tokens) = lex_run(code);
    match spec_from_str(buffer) {
        Some(t) => Ok(tokens.push(t).push(SpecToken::EOF)),
        None => Err(buffer),
    }
}

pub open spec fn tokenize_view(r: Result<Vec<Token>, TokenizationErr>) -> Result<
    Seq<SpecToken>,
    Seq<char>,
> {
    match r {
        Ok(v) => Ok(tokens_view(v@)),
        Err(e) => Err(e@),
    }
}

proof fn lemma_lex_defined_prefix(code: Seq<char>, k: int)
    requires
        0 <= k <= code.len(),
        lex_defined(code),
    ensures
        lex_defined(code.take(k)),
    decreases code.len(),
{
    if k == code.len() {
        assert(code.take(k) =~= code);
    } else {
        lemma_lex_defined_prefix(code.drop_last(), k);
        assert(code.drop_last().take(k) =~= code.take(k));
    }
}

/// Whether the content of a string literal in `v` is ASCII with complete escapes.
fn content_ok(v: &Vec<char>, lo: usize, hi: usize) -> (r: bool)
    requires
        lo <= hi <= v.len(),
    ensures
        r == (all_ascii(v@.subrange(lo as int, hi as int)) && escapes_complete(
            v@.subrange(lo as int, hi as int),
        )),
{
    let ghost sub = v@.subrange(lo as int, hi as int);
    let mut i = lo;
    while i < hi
        invariant
            lo <= i <= hi,
            hi <= v.len(),
            sub == v@.subrange(lo as int, hi as int),
            forall|j: int| lo <= j < i ==> #[trigger] is_ascii_char(v@[j]),
            escapes_complete(sub) <==> escapes_complete(v@.subrange(i as int, hi as int)),
        decreases hi - i,
    {
        let c = v[i];
        if (c as u32) >= 0x80 {
            assert(sub[i - lo] == c);
            assert(!is_ascii_char(sub[i - lo]));
            return false;
        }
        proof {
            let t = v@.subrange(i as int, hi as int);
            assert(t.skip(1) =~= v@.subrange(i + 1, hi as int));
            if i + 2 <= hi {
                assert(t.skip(2) =~= v@.subrange(i + 2, hi as int));
            }
        }
        if c == '\\' {
            if i + 1 < hi {
                let d = v[i + 1];
                if (d as u32) >= 0x80 {
                    assert(sub[i + 1 - lo] == d);
                    assert(!is_ascii_char(sub[i + 1 - lo]));
                    return false;
                }
                i = i + 2;
            } else {
                return false;
            }
        } else {
            i = i + 1;
        }
    }
    proof {
        assert(v@.subrange(i as int, hi as int) =~= Seq::<char>::empty());
        assert forall|j: int| 0 <= j < sub.len() implies #[trigger] is_ascii_char(sub[j]) by {
            assert(sub[j] == v@[lo + j]);
        }
    }
    true
}

/// Whether [`Token::from_str`] returns normally on `s`.
pub fn from_str_is_defined(s: &str) -> (r: bool)
    ensures
        r == from_str_defined(s@),
{
    let v = chars_of(s);
    let bl = byte_len_capped(&v);
    let lone_wide = v.len() == 1 && bl >= 3;
    if lone_wide {
        return false;
    }
    if !is_str_literal(s) {
        return true;
    }
    proof {
        if v@.len() == 1 {
            lemma_byte_len_cons(v@);
            assert(v@.drop_first() =~= Seq::<char>::empty());
        }
    }
    content_ok(&v, 1, v.len() - 1)
}

/// The last but one character of `s` is a backslash.
fn backslash_before_last(s: &String) -> (r: bool)
    ensures
        r == (nth_back(s@, 1) == Some('\\')),
{
    let v = chars_of(s.as_str());
    v.len() >= 2 && v[v.len() - 2] == '\\'
}

/// One step of the lexer (see [`lex_step`]).
fn lex_one(buffer: &mut String, tokens: &mut Vec<Token>, symbol: char)
    requires
        from_str_defined(old(buffer)@),
        from_str_defined(old(buffer)@.push(symbol)),
    ensures
        (final(buffer)@, tokens_view(final(tokens)@)) == lex_step(
            old(buffer)@,
            tokens_view(old(tokens)@),
            symbol,
        ),
{
    let mut next_buffer = buffer.clone();
    push_char(&mut next_buffer, symbol);
    let current = Token::from_str(buffer.as_str());
    let following = Token::from_str(next_buffer.as_str());
    let is_next_buffer_invalid = current.is_ok() && following.is_err();
    let processed = str_literal_process(buffer.clone());
    let is_string_literal = match &current {
        Ok(Token::StringLiteral(x)) => *x == processed,
        _ => false,
    };
    let next_string_literal_invalid = match &following {
        Ok(Token::InvalidStringLiteral(x)) => *x == next_buffer,
        _ => false,
    } && !backslash_before_last(&next_buffer);
    let current_char = char_literal_process(buffer.clone());
    let is_char_literal = match &current {
        Ok(Token::CharLiteral(c)) => *c == current_char,
        _ => false,
    };
    let next_char = char_literal_process(next_buffer.clone());
    let next_chr_literal_invalid = match &following {
        Ok(Token::InvalidCharLiteral(c)) => *c == next_char,
        _ => false,
    };
    let ghost old_tokens = tokens@;
    if is_next_buffer_invalid || is_string_literal && next_string_literal_invalid || is_char_literal
        && next_chr_literal_invalid {
        match current {
            Ok(t) => {
                tokens.push(t);
                proof {
                    assert(tokens_view(tokens@) =~= tokens_view(old_tokens).push(t@));
                }
            },
            Err(_) => {},
        }
        *buffer = String::new();
    }
    let blank = symbol == ' ' || symbol == '\n' || symbol == '\t';
    if blank && (!next_string_literal_invalid || is_string_literal) && (!next_chr_literal_invalid
        || is_char_literal) {
        return;
    }
    push_char(buffer, symbol);
}

/// The tokens of `code`, or `None` where [`tokenize`] would not return.
pub fn try_tokenize(code: &str) -> (r: Option<Result<Vec<Token>, TokenizationErr>>)
    ensures
        r is Some <==> tokenize_defined(code@),
        r matches Some(res) ==> tokenize_view(res) == spec_tokenize(code@),
{
    let mut tokens: Vec<Token> = Vec::new();
    let mut buffer: String = String::new();
    proof {
        assert(code@.take(0) =~= Seq::<char>::empty());
        assert(tokens_view(tokens@) =~= Seq::<SpecToken>::empty());
    }
    for symbol in it: code.chars()
        invariant
            it.seq() == code@,
            lex_defined(code@.take(it.index() as int)),
            buffer@ == lex_run(code@.take(it.index() as int)).0,
            tokens_view(tokens@) == lex_run(code@.take(it.index() as int)).1,
    {
        let ghost i = it.index() as int;
        let ghost prefix = code@.take(i + 1);
        proof {
            assert(prefix.drop_last() =~= code@.take(i));
            assert(prefix.last() == symbol);
        }
        let mut next_buffer = buffer.clone();
        push_char(&mut next_buffer, symbol);
        if !(from_str_is_defined(buffer.as_str()) && from_str_is_defined(next_buffer.as_str())) {
            proof {
                if tokenize_defined(code@) {
                    lemma_lex_defined_prefix(code@, i + 1);
                }
            }
            return None;
        }
        lex_one(&mut buffer, &mut tokens, symbol);
    }
    proof {
        assert(code@.take(code@.len() as int) =~= code@);
    }
    if !from_str_is_defined(buffer.as_str()) {
        return None;
    }
    match Token::from_str(buffer.as_str()) {
        Ok(t) => {
            let ghost before = tokens@;
            tokens.push(t);
            tokens.push(Token::EOF);
            proof {
                assert(tokens_view(tokens@) =~= tokens_view(before).push(t@).push(SpecToken::EOF));
            }
            Some(Ok(tokens))
        },
        Err(_) => Some(Err(TokenizationErr { token: buffer })),
    }
}

/// The tokens of `code`, ended by `EOF`; or the text left over that spells
/// no token.
pub fn tokenize(code: &str) -> (r: Result<Vec<Token>, TokenizationErr>)
    requires
        tokenize_defined(code@),
    ensures
        tokenize_view(r) == spec_tokenize(code@),
{
    match try_tokenize(code) {
        Some(r) => r,
        None => vstd::pervasive::unreached(),
    }
}

} // verus!

verus! {

/// The types whose text form [`is_type`] recognises.
pub enum TypeKind {
    Uint,
    Int,
    Float,
    Token,
}

/// `s` reads as a value of `kind`.
pub open spec fn spec_is_type(s: Seq<char>, kind: TypeKind) -> bool {
    match kind {
        TypeKind::Uint => is_u64_literal(s),
        TypeKind::Int => is_i64_literal(s),
        TypeKind::Float => is_f64_literal(s),
        TypeKind::Token => spec_from_str(s) is Some,
    }
}

/// Whether `value` reads as a value of `kind`.
pub fn is_type(value: &str, kind: TypeKind) -> (r: bool)
    requires
        kind is Token ==> from_str_defined(value@),
    ensures
        r == spec_is_type(value@, kind),
{
    match kind {
        TypeKind::Uint => read_u64(&chars_of(value)).is_some(),
        TypeKind::Int => read_i64(&chars_of(value)).is_some(),
        TypeKind::Float => reads_as_f64(&chars_of(value)),
        TypeKind::Token => Token::from_str(value).is_ok(),
    }
}

/// How many characters at the start of `s` are no token on their own.
pub open spec fn unknown_run(s: Seq<char>) -> nat
    decreases s.len(),
{
    if s.len() == 0 {
        0
    } else if spec_from_str(seq![s[0]]) is Some {
        0
    } else {
        1 + unknown_run(s.drop_first())
    }
}

/// [`get_num_unknowns`] returns normally on `s`: each character it reads
/// is one that `Token::from_str` accepts to read.
pub open spec fn unknown_run_defined(s: Seq<char>) -> bool
    decreases s.len(),
{
    s.len() == 0 || (from_str_defined(seq![s[0]]) && (spec_from_str(seq![s[0]]) is Some
        || unknown_run_defined(s.drop_first())))
}

/// The number of characters at the start of `s` that are no token on their own.
pub fn get_num_unknowns(s: &str) -> (r: u32)
    requires
        unknown_run_defined(s@),
        unknown_run(s@) <= u32::MAX,
    ensures
        r == unknown_run(s@),
{
    let v = chars_of(s);
    let mut num: u32 = 0;
    let mut i: usize = 0;
    assert(v@.skip(0) =~= v@);
    while i < v.len()
        invariant
            i <= v.len(),
            v@ == s@,
            unknown_run(s@) == num + unknown_run(v@.skip(i as int)),
            unknown_run_defined(v@.skip(i as int)),
            unknown_run(s@) <= u32::MAX,
        decreases v.len() - i,
    {
        let c = v[i];
        let mut one = String::new();
        push_char(&mut one, c);
        proof {
            let rest = v@.skip(i as int);
            assert(rest[0] == c);
            assert(rest.drop_first() =~= v@.skip(i + 1));
            assert(one@ =~= seq![c]);
        }
        if is_type(one.as_str(), TypeKind::Token) {
            return num;
        }
        num = num + 1;
        i = i + 1;
    }
    num
}

/// `n` carets.
pub open spec fn carets(n: nat) -> Seq<char> {
    Seq::new(n, |i: int| '^')
}

/// Each character of `p` in single quotes, followed by a comma.
pub open spec fn quoted_list(p: Seq<char>) -> Seq<char>
    decreases p.len(),
{
    if p.len() == 0 {
        Seq::<char>::empty()
    } else {
        seq!['\'', p[0], '\'', ','] + quoted_list(p.drop_first())
    }
}

/// `s` without its trailing commas.
pub open spec fn trim_end_commas(s: Seq<char>) -> Seq<char>
    decreases s.len(),
{
    if s.len() > 0 && s.last() == ',' {
        trim_end_commas(s.drop_last())
    } else {
        s
    }
}

/// The message that describes a token that could not be read: the text,
/// carets under its unknown characters, and those characters listed (when
/// their count, taken as a number of bytes, falls between two characters).
pub open spec fn error_message(token: Seq<char>) -> Seq<char> {
    let n = unknown_run(token);
    let bad = match byte_prefix(token, n as int) {
        Some(p) => p,
        None => Seq::<char>::empty(),
    };
    "Unknown token kind\n"@ + token + "\n\x1b[38;5;196m"@ + carets(n) + "unknown symbol(s) "@
        + trim_end_commas(quoted_list(bad)) + "\x1b[0m"@
}

proof fn lemma_quoted_list_push(p: Seq<char>, c: char)
    ensures
        quoted_list(p.push(c)) == quoted_list(p) + seq!['\'', c, '\'', ','],
    decreases p.len(),
{
    if p.len() == 0 {
        assert(p.push(c).drop_first() =~= Seq::<char>::empty());
        assert(quoted_list(Seq::<char>::empty()) == Seq::<char>::empty());
        assert(p =~= Seq::<char>::empty());
        assert(quoted_list(p.push(c)) =~= quoted_list(p) + seq!['\'', c, '\'', ',']);
    } else {
        assert(p.push(c).drop_first() =~= p.drop_first().push(c));
        lemma_quoted_list_push(p.drop_first(), c);
        assert(quoted_list(p.push(c)) =~= quoted_list(p) + seq!['\'', c, '\'', ',']);
    }
}

/// Whether [`get_num_unknowns`] returns normally on `s` and its count fits
/// in a `u32`.
pub fn num_unknowns_defined(s: &str) -> (r: bool)
    ensures
        r == (unknown_run_defined(s@) && unknown_run(s@) <= u32::MAX),
{
    let v = chars_of(s);
    let mut i: usize = 0;
    assert(v@.skip(0) =~= v@);
    while i < v.len()
        invariant
            i <= v.len(),
            i <= u32::MAX,
            v@ == s@,
            unknown_run_defined(s@) == unknown_run_defined(v@.skip(i as int)),
            unknown_run(s@) == i + unknown_run(v@.skip(i as int)),
        decreases v.len() - i,
    {
        let c = v[i];
        let mut one = String::new();
        push_char(&mut one, c);
        proof {
            let rest = v@.skip(i as int);
            assert(rest[0] == c);
            assert(rest.drop_first() =~= v@.skip(i + 1));
            assert(one@ =~= seq![c]);
        }
        if !from_str_is_defined(one.as_str()) {
            return false;
        }
        if Token::from_str(one.as_str()).is_ok() {
            return true;
        }
        if i == 4294967295usize {
            return false;
        }
        i = i + 1;
    }
    assert(v@.skip(i as int) =~= Seq::<char>::empty());
    true
}

impl TokenizationErr {
    /// The message that describes this error, or `None` where [`Self::fmt`]
    /// would not return.
    pub fn checked_fmt(&self) -> (r: Option<String>)
        ensures
            r is Some <==> (unknown_run_defined(self@) && unknown_run(self@) <= u32::MAX),
            r matches Some(m) ==> m@ == error_message(self@),
    {
        if num_unknowns_defined(self.token.as_str()) {
            Some(self.fmt())
        } else {
            None
        }
    }

    /// The message that describes this error.
    pub fn fmt(&self) -> (r: String)
        requires
            unknown_run_defined(self@),
            unknown_run(self@) <= u32::MAX,
        ensures
            r@ == error_message(self@),
    {
        let n = get_num_unknowns(self.token.as_str());
        let mut underline = String::new();
        let mut i: u32 = 0;
        while i < n
            invariant
                i <= n,
                underline@ == carets(i as nat),
            decreases n - i,
        {
            push_char(&mut underline, '^');
            i = i + 1;
            assert(underline@ =~= carets(i as nat));
        }
        let v = chars_of(self.token.as_str());
        let bad: Vec<char> = match prefix_by_bytes(&v, n) {
            Some(p) => p,
            None => Vec::new(),
        };
        let mut listed: Vec<char> = Vec::new();
        let mut k: usize = 0;
        assert(bad@.take(0) =~= Seq::<char>::empty());
        while k < bad.len()
            invariant
                k <= bad.len(),
                listed@ == quoted_list(bad@.take(k as int)),
            decreases bad.len() - k,
        {
            let c = bad[k];
            proof {
                assert(bad@.take(k + 1) =~= bad@.take(k as int).push(c));
                lemma_quoted_list_push(bad@.take(k as int), c);
            }
            listed.push('\'');
            listed.push(c);
            listed.push('\'');
            listed.push(',');
            k = k + 1;
            assert(listed@ =~= quoted_list(bad@.take(k as int)));
        }
        assert(bad@.take(bad.len() as int) =~= bad@);
        let mut end = listed.len();
        assert(listed@.take(end as int) =~= listed@);
        while end > 0 && listed[end - 1] == ','
            invariant
                end <= listed.len(),
                trim_end_commas(listed@) == trim_end_commas(listed@.take(end as int)),
            decreases end,
        {
            assert(listed@.take(end as int).drop_last() =~= listed@.take(end - 1));
            end = end - 1;
        }
        let mut letters = String::new();
        let mut j: usize = 0;
        while j < end
            invariant
                j <= end <= listed.len(),
                letters@ == listed@.take(j as int),
            decreases end - j,
        {
            push_char(&mut letters, listed[j]);
            j = j + 1;
            assert(letters@ =~= listed@.take(j as int));
        }
        let mut out = String::from_str("Unknown token kind\n");
        out.append(self.token.as_str());
        out.append("\n\x1b[38;5;196m");
        out.append(underline.as_str());
        out.append("unknown symbol(s) ");
        out.append(letters.as_str());
        out.append("\x1b[0m");
        proof {
            assert(listed@.take(listed@.len() as int) =~= listed@);
            assert(letters@ == trim_end_commas(listed@));
        }
        out
    }
}

} // verus!

verus! {

impl Clone for Token {
    fn clone(&self) -> (r: Token)
        ensures
            r@ == self@,
    {
        match self {
            Token::OpenParentheses => Token::OpenParentheses,
            Token::CloseParentheses => Token::CloseParentheses,
            Token::OpenSqrBrackets => Token::OpenSqrBrackets,
            Token::CloseSqrBrackets => Token::CloseSqrBrackets,
            Token::OpenCurlyBrackets => Token::OpenCurlyBrackets,
            Token::CloseCurlyBrackets => Token::CloseCurlyBrackets,
            Token::SemiColon => Token::SemiColon,
            Token::Comma => Token::Comma,
            Token::Colon => Token::Colon,
            Token::Hash => Token::Hash,
            Token::Equal => Token::Equal,
            Token::Plus => Token::Plus,
            Token::Minus => Token::Minus,
            Token::Times => Token::Times,
            Token::Div => Token::Div,
            Token::Mod => Token::Mod,
            Token::BitwiseAnd => Token::BitwiseAnd,
            Token::BitwiseOr => Token::BitwiseOr,
            Token::BitwiseXor => Token::BitwiseXor,
            Token::BitwiseNot => Token::BitwiseNot,
            Token::BoolAnd => Token::BoolAnd,
            Token::BoolOr => Token::BoolOr,
            Token::BoolXor => Token::BoolXor,
            Token::Func => Token::Func,
            Token::Let => Token::Let,
            Token::StringLiteral(x) => Token::StringLiteral(x.clone()),
            Token::InvalidStringLiteral(x) => Token::InvalidStringLiteral(x.clone()),
            Token::CharLiteral(x) => Token::CharLiteral(*x),
            Token::InvalidCharLiteral(x) => Token::InvalidCharLiteral(*x),
            Token::Identifier(x) => Token::Identifier(x.clone()),
            Token::Uint(x) => Token::Uint(*x),
            Token::Int(x) => Token::Int(*x),
            Token::Float(x) => Token::Float(x.clone()),
            Token::Invalid => Token::Invalid,
            Token::EOF => Token::EOF,
            Token::EqualTo => Token::EqualTo,
            Token::BiggerThan => Token::BiggerThan,
            Token::LessThan => Token::LessThan,
            Token::BiggerOrEqualTo => Token::BiggerOrEqualTo,
            Token::LessOrEqualTo => Token::LessOrEqualTo,
            Token::As => Token::As,
            Token::Const => Token::Const,
            Token::Inc => Token::Inc,
            Token::Dec => Token::Dec,
            Token::If => Token::If,
            Token::Else => Token::Else,
            Token::While => Token::While,
            Token::For => Token::For,
            Token::In => Token::In,
        }
    }
}

impl Token {
    /// Whether the two tokens are the same.
    pub fn same(&self, other: &Token) -> (r: bool)
        ensures
            r == (self@ == other@),
    {
        match (self, other) {
            (Token::OpenParentheses, Token::OpenParentheses) => true,
            (Token::CloseParentheses, Token::CloseParentheses) => true,
            (Token::OpenSqrBrackets, Token::OpenSqrBrackets) => true,
            (Token::CloseSqrBrackets, Token::CloseSqrBrackets) => true,
            (Token::OpenCurlyBrackets, Token::OpenCurlyBrackets) => true,
            (Token::CloseCurlyBrackets, Token::CloseCurlyBrackets) => true,
            (Token::SemiColon, Token::SemiColon) => true,
            (Token::Comma, Token::Comma) => true,
            (Token::Colon, Token::Colon) => true,
            (Token::Hash, Token::Hash) => true,
            (Token::Equal, Token::Equal) => true,
            (Token::Plus, Token::Plus) => true,
            (Token::Minus, Token::Minus) => true,
            (Token::Times, Token::Times) => true,
            (Token::Div, Token::Div) => true,
            (Token::Mod, Token::Mod) => true,
            (Token::BitwiseAnd, Token::BitwiseAnd) => true,
            (Token::BitwiseOr, Token::BitwiseOr) => true,
            (Token::BitwiseXor, Token::BitwiseXor) => true,
            (Token::BitwiseNot, Token::BitwiseNot) => true,
            (Token::BoolAnd, Token::BoolAnd) => true,
            (Token::BoolOr, Token::BoolOr) => true,
            (Token::BoolXor, Token::BoolXor) => true,
            (Token::Func, Token::Func) => true,
            (Token::Let, Token::Let) => true,
            (Token::StringLiteral(x), Token::StringLiteral(y)) => *x == *y,
            (Token::InvalidStringLiteral(x), Token::InvalidStringLiteral(y)) => *x == *y,
            (Token::CharLiteral(x), Token::CharLiteral(y)) => *x == *y,
            (Token::InvalidCharLiteral(x), Token::InvalidCharLiteral(y)) => *x == *y,
            (Token::Identifier(x), Token::Identifier(y)) => *x == *y,
            (Token::Uint(x), Token::Uint(y)) => *x == *y,
            (Token::Int(x), Token::Int(y)) => *x == *y,
            (Token::Float(x), Token::Float(y)) => *x == *y,
            (Token::Invalid, Token::Invalid) => true,
            (Token::EOF, Token::EOF) => true,
            (Token::EqualTo, Token::EqualTo) => true,
            (Token::BiggerThan, Token::BiggerThan) => true,
            (Token::LessThan, Token::LessThan) => true,
            (Token::BiggerOrEqualTo, Token::BiggerOrEqualTo) => true,
            (Token::LessOrEqualTo, Token::LessOrEqualTo) => true,
            (Token::As, Token::As) => true,
            (Token::Const, Token::Const) => true,
            (Token::Inc, Token::Inc) => true,
            (Token::Dec, Token::Dec) => true,
            (Token::If, Token::If) => true,
            (Token::Else, Token::Else) => true,
            (Token::While, Token::While) => true,
            (Token::For, Token::For) => true,
            (Token::In, Token::In) => true,
            _ => false,
        }
    }
}

} // verus!

verus! {

proof fn lemma_no_eof_spelled(s: Seq<char>)
    ensures
        spec_from_str(s) != Some(SpecToken::EOF),
        spec_symbol(s) != Some(SpecToken::EOF),
        spec_from_str(s) != Some(SpecToken::Invalid),
        spec_symbol(s) != Some(SpecToken::Invalid),
{
}

proof fn lemma_lex_run_no_eof(code: Seq<char>)
    ensures
        forall|i: int| 0 <= i < lex_run(code).1.len() ==> #[trigger] lex_run(code).1[i] != SpecToken::EOF
            && lex_run(code).1[i] != SpecToken::Invalid,
    decreases code.len(),
{
    if code.len() > 0 {
        let (buffer, tokens) = lex_run(code.drop_last());
        lemma_lex_run_no_eof(code.drop_last());
        lemma_no_eof_spelled(buffer);
        assert(or_invalid(spec_from_str(buffer)) != SpecToken::EOF);
        let (b2, t2) = lex_step(buffer, tokens, code.last());
        assert forall|i: int| 0 <= i < t2.len() implies #[trigger] t2[i] != SpecToken::EOF && t2[i] != SpecToken::Invalid by {
            if i < tokens.len() {
                assert(t2[i] == tokens[i]);
            } else {
                assert(spec_from_str(buffer) is Some);
            }
        }
    }
}

/// The tokens of a program end with `EOF`; no other token is `EOF`, and
/// none is `Invalid`.
pub proof fn law_tokens_end_with_eof(code: Seq<char>)
    ensures
        spec_tokenize(code) matches Ok(tokens) ==> {
            &&& tokens.len() >= 2
            &&& tokens.last() == SpecToken::EOF
            &&& forall|i: int| 0 <= i < tokens.len() - 1 ==> #[trigger] tokens[i] != SpecToken::EOF
                && tokens[i] != SpecToken::Invalid
        },
{
    let (buffer, tokens) = lex_run(code);
    lemma_lex_run_no_eof(code);
    lemma_no_eof_spelled(buffer);
    match spec_from_str(buffer) {
        Some(t) => {
            let all = tokens.push(t).push(SpecToken::EOF);
            assert forall|i: int| 0 <= i < all.len() - 1 implies #[trigger] all[i] != SpecToken::EOF && all[i] != SpecToken::Invalid by {
                if i < tokens.len() {
                    assert(all[i] == tokens[i]);
                }
            }
        },
        None => {},
    }
}

/// A string literal is read as one token, blanks and all: the text between
/// its quotes with escapes resolved.
pub proof fn law_string_literal_is_one_token(s: Seq<char>)
    ensures
        spec_is_str_literal(s) ==> spec_from_str(s) == Some(
            SpecToken::StringLiteral(unescape(literal_content(s))),
        ),
{
}

/// No text is both a string literal and an unclosed one, nor both a
/// character literal and an unclosed one.
pub proof fn law_literals_closed_or_not(s: Seq<char>)
    ensures
        spec_is_str_literal(s) ==> !spec_is_invalid_str_literal(s),
        spec_is_char_literal(s) ==> !spec_is_invalid_char_literal(s),
{
}

} // verus!

verus! {

proof fn lemma_signed_parts(s: Seq<char>, i: int)
    requires
        0 <= i < s.len(),
        all_digits(signed_body(s)),
    ensures
        is_digit(s[i]) || (i == 0 && is_sign(s[0])),
{
    if s.len() > 0 && is_sign(s[0]) {
        if i > 0 {
            assert(signed_body(s)[i - 1] == s[i]);
        }
    } else {
        assert(signed_body(s)[i] == s[i]);
    }
}

proof fn lemma_unsigned_parts(s: Seq<char>, i: int)
    requires
        0 <= i < s.len(),
        all_digits(unsigned_body(s)),
    ensures
        is_digit(s[i]) || (i == 0 && s[0] == '+'),
{
    if s.len() > 0 && s[0] == '+' {
        if i > 0 {
            assert(unsigned_body(s)[i - 1] == s[i]);
        }
    } else {
        assert(unsigned_body(s)[i] == s[i]);
    }
}

/// A number is read as the number it spells: a `u64` where `u64::from_str`
/// reads it, else an `i64` where `i64::from_str` does.
pub proof fn law_number_tokens(s: Seq<char>)
    ensures
        is_u64_literal(s) ==> spec_from_str(s) == Some(SpecToken::Uint(u64_literal_value(s) as u64)),
        !is_u64_literal(s) && is_i64_literal(s) ==> spec_from_str(s) == Some(
            SpecToken::Int(i64_literal_value(s) as i64),
        ),
{
    if is_u64_literal(s) {
        assert forall|i: int| 0 <= i < s.len() implies !is_blank(#[trigger] s[i]) by {
            lemma_unsigned_parts(s, i);
        }
        lemma_unsigned_parts(s, 0);
        assert(!has_blank(s));
    } else if is_i64_literal(s) {
        assert forall|i: int| 0 <= i < s.len() implies !is_blank(#[trigger] s[i]) by {
            lemma_signed_parts(s, i);
        }
        lemma_signed_parts(s, 0);
        assert(!has_blank(s));
    }
}

/// `s` is read as a string or character literal, closed or not.
pub open spec fn is_literal(s: Seq<char>) -> bool {
    spec_is_invalid_str_literal(s) || spec_is_str_literal(s) || spec_is_char_literal(s)
        || spec_is_invalid_char_literal(s)
}

proof fn lemma_integer_is_no_identifier(s: Seq<char>)
    requires
        is_u64_literal(s) || is_i64_literal(s),
    ensures
        !spec_is_identifier(s),
{
    if is_u64_literal(s) && !is_i64_literal(s) {
        lemma_unsigned_parts(s, 0);
        if s[0] == '+' {
            lemma_unsigned_parts(s, 1);
        }
        let k: int = if is_digit(s[0]) { 1 } else { 2 };
        let p = s.take(k);
        if k == 1 {
            assert(signed_body(p) =~= p);
        } else {
            assert(signed_body(p) =~= seq![s[1]]);
        }
        assert(signed_body(p).drop_last() =~= Seq::<char>::empty());
        assert(digits_value(Seq::<char>::empty()) == 0);
        assert(is_i64_literal(p));
    } else {
        assert(s.take(s.len() as int) =~= s);
    }
}

/// A text is read as an identifier exactly when it is no literal, holds no
/// blank, is a non-empty identifier, and is neither a symbol or keyword nor
/// a float literal (so `inf` is a float); a number is never an identifier.
pub proof fn law_identifier_token(s: Seq<char>)
    ensures
        spec_from_str(s) == Some(SpecToken::Identifier(s)) <==> {
            &&& s.len() > 0
            &&& !is_literal(s)
            &&& !has_blank(s)
            &&& spec_is_identifier(s)
            &&& spec_symbol(s) is None
            &&& !is_f64_literal(s)
        },
{
    if is_u64_literal(s) || is_i64_literal(s) {
        lemma_integer_is_no_identifier(s);
    }
}

} // verus!

verus! {

/// The count of unknown characters is the length of the longest run at the
/// start of `s` of characters that are no token on their own.
pub proof fn law_unknown_run_is_longest(s: Seq<char>)
    ensures
        unknown_run(s) <= s.len(),
        forall|i: int| 0 <= i < unknown_run(s) ==> spec_from_str(seq![#[trigger] s[i]]) is None,
        unknown_run(s) < s.len() ==> spec_from_str(seq![s[unknown_run(s) as int]]) is Some,
    decreases s.len(),
{
    if s.len() > 0 && spec_from_str(seq![s[0]]) is None {
        let t = s.drop_first();
        law_unknown_run_is_longest(t);
        assert forall|i: int| 0 <= i < unknown_run(s) implies spec_from_str(seq![#[trigger] s[i]]) is None by {
            if i > 0 {
                assert(t[i - 1] == s[i]);
            }
        }
        if unknown_run(s) < s.len() {
            assert(t[unknown_run(t) as int] == s[unknown_run(s) as int]);
        }
    }
}

} // verus!

verus! {

proof fn lemma_short_symbol_text(s: Seq<char>)
    requires
        1 <= s.len() <= 2,
        forall|i: int| 0 <= i < s.len() ==> !is_digit(#[trigger] s[i]) && s[i] != '.' && s[i] != '"'
            && s[i] != '\'' && !is_blank(s[i]),
    ensures
        !is_f64_literal(s),
        !is_u64_literal(s),
        !is_i64_literal(s),
        !is_literal(s),
        !has_blank(s),
{
    let b = signed_body(s);
    assert(b.len() <= 2);
    if is_decimal(b) {
        let q = choose|q: int|
            0 <= q <= b.len() && #[trigger] is_mantissa(b.take(q)) && (q == b.len() || is_exponent(b.skip(q)));
        let m = b.take(q);
        if m.len() > 0 && all_digits(m) {
            assert(is_digit(m[0]));
            assert(m[0] == b[0]);
            if s.len() > 0 && is_sign(s[0]) {
                assert(b[0] == s[1]);
            } else {
                assert(b[0] == s[0]);
            }
        } else {
            let p = choose|p: int|
                0 <= p < m.len() && m.len() >= 2 && #[trigger] m[p] == '.' && all_digits(m.take(p))
                    && all_digits(m.skip(p + 1));
            assert(m[p] == b[p]);
            if s.len() > 0 && is_sign(s[0]) {
                assert(b[p] == s[p + 1]);
            } else {
                assert(b[p] == s[p]);
            }
        }
    }
    if is_u64_literal(s) {
        lemma_unsigned_parts(s, s.len() - 1);
        if s.len() == 2 {
            lemma_unsigned_parts(s, 1);
        }
        assert(unsigned_body(s).len() > 0);
        assert(is_digit(unsigned_body(s)[0]));
        if s[0] == '+' {
            assert(unsigned_body(s)[0] == s[1]);
        } else {
            assert(unsigned_body(s)[0] == s[0]);
        }
    }
    if is_i64_literal(s) {
        assert(signed_body(s).len() > 0);
        assert(is_digit(signed_body(s)[0]));
        if is_sign(s[0]) {
            assert(signed_body(s)[0] == s[1]);
        } else {
            assert(signed_body(s)[0] == s[0]);
        }
    }
}

proof fn lemma_keyword_text(s: Seq<char>)
    requires
        s == seq!['f', 'u', 'n', 'c'] || s == seq!['l', 'e', 't'],
    ensures
        !is_f64_literal(s),
        !is_u64_literal(s),
        !is_i64_literal(s),
        !is_literal(s),
        !has_blank(s),
{
    let b = signed_body(s);
    assert(b == s);
    assert(!is_word_ignoring_case(b, seq!['i', 'n', 'f'])) by {
        if b.len() == 3 {
            assert(!(b[0] == 'i' || (b[0] as u32) + 32 == ('i' as u32)));
        }
    }
    assert(!is_word_ignoring_case(b, seq!['n', 'a', 'n'])) by {
        if b.len() == 3 {
            assert(!(b[0] == 'n' || (b[0] as u32) + 32 == ('n' as u32)));
        }
    }
    if is_decimal(b) {
        let q = choose|q: int|
            0 <= q <= b.len() && #[trigger] is_mantissa(b.take(q)) && (q == b.len() || is_exponent(b.skip(q)));
        let m = b.take(q);
        if m.len() > 0 && all_digits(m) {
            assert(is_digit(m[0]));
            assert(m[0] == b[0]);
        } else {
            let p = choose|p: int|
                0 <= p < m.len() && m.len() >= 2 && #[trigger] m[p] == '.' && all_digits(m.take(p))
                    && all_digits(m.skip(p + 1));
            assert(m[p] == b[p]);
        }
    }
    if is_u64_literal(s) {
        assert(unsigned_body(s) == s);
        assert(is_digit(s[0]));
    }
    if is_i64_literal(s) {
        assert(is_digit(s[0]));
    }
}

/// Each symbol and keyword is read as its own token, and no two different
/// symbol texts give the same token.
pub proof fn law_symbols_read_as_themselves()
    ensures
        spec_from_str(seq!['(']) == Some(SpecToken::OpenParentheses),
        spec_from_str(seq![')']) == Some(SpecToken::CloseParentheses),
        spec_from_str(seq!['[']) == Some(SpecToken::OpenSqrBrackets),
        spec_from_str(seq![']']) == Some(SpecToken::CloseSqrBrackets),
        spec_from_str(seq!['{']) == Some(SpecToken::OpenCurlyBrackets),
        spec_from_str(seq!['}']) == Some(SpecToken::CloseCurlyBrackets),
        spec_from_str(seq!['#']) == Some(SpecToken::Hash),
        spec_from_str(seq![';']) == Some(SpecToken::SemiColon),
        spec_from_str(seq![',']) == Some(SpecToken::Comma),
        spec_from_str(seq![':']) == Some(SpecToken::Colon),
        spec_from_str(seq!['=']) == Some(SpecToken::Equal),
        spec_from_str(seq!['+']) == Some(SpecToken::Plus),
        spec_from_str(seq!['-']) == Some(SpecToken::Minus),
        spec_from_str(seq!['*']) == Some(SpecToken::Times),
        spec_from_str(seq!['/']) == Some(SpecToken::Div),
        spec_from_str(seq!['&']) == Some(SpecToken::BitwiseAnd),
        spec_from_str(seq!['|']) == Some(SpecToken::BitwiseOr),
        spec_from_str(seq!['^']) == Some(SpecToken::BitwiseXor),
        spec_from_str(seq!['!']) == Some(SpecToken::BitwiseNot),
        spec_from_str(seq!['&', '&']) == Some(SpecToken::BoolAnd),
        spec_from_str(seq!['|', '|']) == Some(SpecToken::BoolOr),
        spec_from_str(seq!['#', '#']) == Some(SpecToken::BoolXor),
        forall|a: Seq<char>, b: Seq<char>|
            #![trigger spec_symbol(a), spec_symbol(b)]
            spec_symbol(a) is Some && spec_symbol(a) == spec_symbol(b) ==> a == b,
{
    let ones = seq!['(', ')', '[', ']', '{', '}', '#', ';', ',', ':', '=', '+', '-', '*', '/', '&', '|', '^', '!'];
    assert forall|i: int| 0 <= i < ones.len() implies #[trigger] spec_from_str(seq![ones[i]]) == spec_symbol(seq![ones[i]]) by {
        lemma_short_symbol_text(seq![ones[i]]);
    }
    assert(spec_from_str(seq!['(']) == spec_symbol(seq!['('])) by { assert(ones[0] == '('); }
    assert(spec_from_str(seq![')']) == spec_symbol(seq![')'])) by { assert(ones[1] == ')'); }
    assert(spec_from_str(seq!['[']) == spec_symbol(seq!['['])) by { assert(ones[2] == '['); }
    assert(spec_from_str(seq![']']) == spec_symbol(seq![']'])) by { assert(ones[3] == ']'); }
    assert(spec_from_str(seq!['{']) == spec_symbol(seq!['{'])) by { assert(ones[4] == '{'); }
    assert(spec_from_str(seq!['}']) == spec_symbol(seq!['}'])) by { assert(ones[5] == '}'); }
    assert(spec_from_str(seq!['#']) == spec_symbol(seq!['#'])) by { assert(ones[6] == '#'); }
    assert(spec_from_str(seq![';']) == spec_symbol(seq![';'])) by { assert(ones[7] == ';'); }
    assert(spec_from_str(seq![',']) == spec_symbol(seq![','])) by { assert(ones[8] == ','); }
    assert(spec_from_str(seq![':']) == spec_symbol(seq![':'])) by { assert(ones[9] == ':'); }
    assert(spec_from_str(seq!['=']) == spec_symbol(seq!['='])) by { assert(ones[10] == '='); }
    assert(spec_from_str(seq!['+']) == spec_symbol(seq!['+'])) by { assert(ones[11] == '+'); }
    assert(spec_from_str(seq!['-']) == spec_symbol(seq!['-'])) by { assert(ones[12] == '-'); }
    assert(spec_from_str(seq!['*']) == spec_symbol(seq!['*'])) by { assert(ones[13] == '*'); }
    assert(spec_from_str(seq!['/']) == spec_symbol(seq!['/'])) by { assert(ones[14] == '/'); }
    assert(spec_from_str(seq!['&']) == spec_symbol(seq!['&'])) by { assert(ones[15] == '&'); }
    assert(spec_from_str(seq!['|']) == spec_symbol(seq!['|'])) by { assert(ones[16] == '|'); }
    assert(spec_from_str(seq!['^']) == spec_symbol(seq!['^'])) by { assert(ones[17] == '^'); }
    assert(spec_from_str(seq!['!']) == spec_symbol(seq!['!'])) by { assert(ones[18] == '!'); }
    lemma_short_symbol_text(seq!['&', '&']);
    lemma_short_symbol_text(seq!['|', '|']);
    lemma_short_symbol_text(seq!['#', '#']);
    assert forall|a: Seq<char>, b: Seq<char>|
        #![trigger spec_symbol(a), spec_symbol(b)]
        spec_symbol(a) is Some && spec_symbol(a) == spec_symbol(b) implies a == b by {
    }
}

/// The keywords `func` and `let` are read as their tokens.
pub proof fn law_keywords_read_as_themselves()
    ensures
        spec_from_str(seq!['f', 'u', 'n', 'c']) == Some(SpecToken::Func),
        spec_from_str(seq!['l', 'e', 't']) == Some(SpecToken::Let),
{
    lemma_keyword_text(seq!['f', 'u', 'n', 'c']);
    lemma_keyword_text(seq!['l', 'e', 't']);
}

} // verus!

verus! {

proof fn lemma_unescape_plain(s: Seq<char>)
    requires
        forall|i: int| 0 <= i < s.len() ==> #[trigger] s[i] != '\\',
    ensures
        unescape(s) == s,
    decreases s.len(),
{
    if s.len() > 0 {
        assert forall|i: int| 0 <= i < s.skip(1).len() implies #[trigger] s.skip(1)[i] != '\\' by {
            assert(s.skip(1)[i] == s[i + 1]);
        }
        lemma_unescape_plain(s.skip(1));
        assert(seq![s[0]] + s.skip(1) =~= s);
    }
}

/// Escapes: `\n` stands for a newline, `\r` for a carriage return, `\0`
/// for the null character, and a backslash before any other character for
/// that character; text without a backslash stands for itself, so a string
/// literal without one is read as the text between its quotes.
pub proof fn law_escapes(ch: char, s: Seq<char>)
    ensures
        spec_get_escape('n') == '\n',
        spec_get_escape('r') == '\r',
        spec_get_escape('0') == '\0',
        ch != 'n' && ch != 'r' && ch != '0' ==> spec_get_escape(ch) == ch,
        unescape(seq!['\\', ch]) == seq![spec_get_escape(ch)],
        (forall|i: int| 0 <= i < s.len() ==> #[trigger] s[i] != '\\') ==> unescape(s) == s,
        spec_is_str_literal(s) && (forall|i: int| 0 <= i < s.len() ==> #[trigger] s[i] != '\\')
            ==> spec_from_str(s) == Some(SpecToken::StringLiteral(s.subrange(1, s.len() - 1))),
{
    let e = seq!['\\', ch];
    assert(e.skip(2) =~= Seq::<char>::empty());
    assert(unescape(Seq::<char>::empty()) == Seq::<char>::empty());
    assert(seq![spec_get_escape(ch)] + Seq::<char>::empty() =~= seq![spec_get_escape(ch)]);
    if forall|i: int| 0 <= i < s.len() ==> #[trigger] s[i] != '\\' {
        lemma_unescape_plain(s);
        if spec_is_str_literal(s) {
            if s.len() == 1 {
                crate::text::lemma_byte_len_single(s[0]);
                assert(s =~= seq![s[0]]);
            }
            assert(s.len() >= 2);
            let c = literal_content(s);
            assert forall|i: int| 0 <= i < c.len() implies #[trigger] c[i] != '\\' by {
                assert(c[i] == s[i + 1]);
            }
            lemma_unescape_plain(c);
            law_string_literal_is_one_token(s);
        }
    }
}

} // verus!
