use vstd::prelude::*;
use crate::span::Span;

verus! {

/// A lexical token. `LabelDef` and `Ident` carry no text: their text is the
/// source under the token's span.
#[derive(Clone, Copy, Debug, PartialEq, Eq, Structural)]
pub enum Token {
    Newline,
    Register(usize),
    Integer(isize),
    LabelDef,
    Ident,
}

/// A token with its place in the source; `Err` marks text that is no token.
#[derive(Clone, Copy, Debug)]
pub struct Lexeme {
    pub token: Result<Token, ()>,
    pub span: Span,
}

/// Classes of bytes that the scanner reads in runs.
#[derive(Clone, Copy, Debug, PartialEq, Eq, Structural)]
pub enum Class {
    /// `0` to `9`.
    Digit,
    /// `0` to `9`, `a` to `f`, `A` to `F`.
    Hex,
    /// Letters, digits and the underscore.
    Word,
    /// Anything but a line feed.
    Line,
    /// A continuation byte of a multi-byte character.
    Continuation,
}

/// A decimal digit.
pub open spec fn is_digit(b: u8) -> bool {
    48 <= b <= 57
}

/// A hexadecimal digit, in either case.
pub open spec fn is_hex(b: u8) -> bool {
    is_digit(b) || 97 <= b <= 102 || 65 <= b <= 70
}

/// A byte that may start a word: a letter or the underscore.
pub open spec fn is_letter(b: u8) -> bool {
    97 <= b <= 122 || 65 <= b <= 90 || b == 95
}

/// White space other than the line feed, which is a token. Only these
/// bytes are white space: the space, the tab, the vertical tab, the form feed
/// and the carriage return. A white-space character of more than one byte
/// starts no token and is an error.
pub open spec fn is_blank(b: u8) -> bool {
    b == 32 || b == 9 || 11 <= b <= 13
}

/// Whether byte `b` is of class `c`.
pub open spec fn in_class(c: Class, b: u8) -> bool {
    match c {
        Class::Digit => is_digit(b),
        Class::Hex => is_hex(b),
        Class::Word => is_letter(b) || is_digit(b),
        Class::Line => b != 10,
        Class::Continuation => 128 <= b <= 191,
    }
}

/// The end of the longest run of bytes of class `c` that starts at `pos`.
pub open spec fn run_end(s: Seq<u8>, pos: int, c: Class) -> int
    decreases s.len() - pos,
{
    if 0 <= pos < s.len() && in_class(c, s[pos]) {
        run_end(s, pos + 1, c)
    } else {
        pos
    }
}

/// Whether a line comment starts at `pos`: two slashes.
pub open spec fn comment_at(s: Seq<u8>, pos: int) -> bool {
    &&& 0 <= pos
    &&& pos + 1 < s.len()
    &&& s[pos] == 47
    &&& s[pos + 1] == 47
}

/// The first position at or after `pos` that is neither blank nor inside a
/// line comment. A comment ends in front of the line feed that ends its
/// line, or with the text: the line feed itself is the next token.
pub open spec fn skip_end(s: Seq<u8>, pos: int) -> int
    decreases s.len() - pos,
    via skip_end_decreases
{
    if 0 <= pos < s.len() && is_blank(s[pos]) {
        skip_end(s, pos + 1)
    } else if comment_at(s, pos) {
        skip_end(s, run_end(s, pos + 2, Class::Line))
    } else {
        pos
    }
}

#[via_fn]
proof fn skip_end_decreases(s: Seq<u8>, pos: int) {
    if comment_at(s, pos) {
        lemma_run_end_bounds(s, pos + 2, Class::Line);
    }
}

/// A digit of the base: hexadecimal where `hex` holds, else decimal.
pub open spec fn is_digit_of(b: u8, hex: bool) -> bool {
    if hex {
        is_hex(b)
    } else {
        is_digit(b)
    }
}

/// The value of one digit, decimal or hexadecimal.
pub open spec fn digit_value(b: u8) -> nat {
    if is_digit(b) {
        (b - 48) as nat
    } else if 97 <= b <= 102 {
        (b - 87) as nat
    } else if 65 <= b <= 70 {
        (b - 55) as nat
    } else {
        0
    }
}

/// The number that a string of digits denotes, in base 16 or 10.
pub open spec fn digits_value(s: Seq<u8>, hex: bool) -> nat
    decreases s.len(),
{
    if s.len() == 0 {
        0
    } else if hex {
        digits_value(s.drop_last(), hex) * 16 + digit_value(s.last())
    } else {
        digits_value(s.drop_last(), hex) * 10 + digit_value(s.last())
    }
}

/// A register token over `start..end`, or an error where the index does not
/// fit in `usize`.
pub open spec fn register_lexeme(s: Seq<u8>, start: int, end: int) -> Lexeme {
    let v = digits_value(s.subrange(start + 1, end), false);
    Lexeme {
        token: if v <= usize::MAX { Ok(Token::Register(v as usize)) } else { Err(()) },
        span: Span { start: start as usize, end: end as usize },
    }
}

/// An integer token over `start..end` whose digits start at `from`, or an
/// error where the value does not fit in `isize`.
pub open spec fn integer_lexeme(s: Seq<u8>, start: int, from: int, end: int, hex: bool, neg: bool) -> Lexeme {
    let m = digits_value(s.subrange(from, end), hex);
    let v = if neg { -(m as int) } else { m as int };
    Lexeme {
        token: if isize::MIN <= v <= isize::MAX { Ok(Token::Integer(v as isize)) } else { Err(()) },
        span: Span { start: start as usize, end: end as usize },
    }
}

/// The token that starts exactly at `p`, where `p` is inside the text and
/// neither blank nor the start of a comment. The longest match wins: a word
/// directly followed by a colon is a label definition; `r` or `R` and digits
/// with no further word byte is a register; `0x` and a hex digit start a hex
/// number; a minus sign counts only in front of a digit. Any other byte is an
/// error that spans one character.
pub open spec fn token_at(s: Seq<u8>, p: int) -> Lexeme {
    let b = s[p];
    let word_end = run_end(s, p + 1, Class::Word);
    if b == 10 {
        Lexeme { token: Ok(Token::Newline), span: Span { start: p as usize, end: (p + 1) as usize } }
    } else if is_letter(b) {
        if word_end < s.len() && s[word_end] == 58 {
            Lexeme { token: Ok(Token::LabelDef), span: Span { start: p as usize, end: (word_end + 1) as usize } }
        } else if (b == 114 || b == 82) && word_end > p + 1 && run_end(s, p + 1, Class::Digit) == word_end {
            register_lexeme(s, p, word_end)
        } else {
            Lexeme { token: Ok(Token::Ident), span: Span { start: p as usize, end: word_end as usize } }
        }
    } else if b == 48 && p + 2 < s.len() && s[p + 1] == 120 && is_hex(s[p + 2]) {
        integer_lexeme(s, p, p + 2, run_end(s, p + 2, Class::Hex), true, false)
    } else if is_digit(b) {
        integer_lexeme(s, p, p, run_end(s, p, Class::Digit), false, false)
    } else if b == 45 && p + 1 < s.len() && is_digit(s[p + 1]) {
        integer_lexeme(s, p, p + 1, run_end(s, p + 1, Class::Digit), false, true)
    } else {
        Lexeme { token: Err(()), span: Span { start: p as usize, end: run_end(s, p + 1, Class::Continuation) as usize } }
    }
}

/// The next token at or after `pos`, or `None` where only blanks and comments
/// are left.
pub open spec fn scan(s: Seq<u8>, pos: int) -> Option<Lexeme> {
    let p = skip_end(s, pos);
    if p < s.len() {
        Some(token_at(s, p))
    } else {
        None
    }
}

/// A run ends inside the text, at or behind its start.
pub proof fn lemma_run_end_bounds(s: Seq<u8>, pos: int, c: Class)
    requires
        0 <= pos <= s.len(),
    ensures
        pos <= run_end(s, pos, c) <= s.len(),
    decreases s.len() - pos,
{
    if pos < s.len() && in_class(c, s[pos]) {
        lemma_run_end_bounds(s, pos + 1, c);
    }
}

/// Skipping ends inside the text, at or behind its start.
pub proof fn lemma_skip_end_bounds(s: Seq<u8>, pos: int)
    requires
        0 <= pos <= s.len(),
    ensures
        pos <= skip_end(s, pos) <= s.len(),
    decreases s.len() - pos,
{
    if pos < s.len() && is_blank(s[pos]) {
        lemma_skip_end_bounds(s, pos + 1);
    } else if comment_at(s, pos) {
        lemma_run_end_bounds(s, pos + 2, Class::Line);
        lemma_skip_end_bounds(s, run_end(s, pos + 2, Class::Line));
    }
}

/// Every token is a non-empty stretch of the text at or behind the position
/// that the scan started from.
pub proof fn lemma_scan_advances(s: Seq<u8>, pos: int)
    requires
        0 <= pos <= s.len(),
        s.len() <= usize::MAX,
    ensures
        match scan(s, pos) {
            Some(l) => pos <= l.span.start < l.span.end <= s.len() && l.span.start == skip_end(s, pos),
            None => true,
        },
{
    lemma_skip_end_bounds(s, pos);
    let p = skip_end(s, pos);
    if p < s.len() {
        lemma_run_end_bounds(s, p + 1, Class::Word);
        lemma_run_end_bounds(s, p + 1, Class::Digit);
        lemma_run_end_bounds(s, p + 1, Class::Continuation);
        lemma_run_end_bounds(s, p, Class::Digit);
        if p + 2 <= s.len() {
            lemma_run_end_bounds(s, p + 2, Class::Hex);
        }
        if is_digit(s[p]) {
            assert(run_end(s, p, Class::Digit) == run_end(s, p + 1, Class::Digit));
        }
        if p + 2 < s.len() && is_hex(s[p + 2]) {
            lemma_run_end_bounds(s, p + 3, Class::Hex);
            assert(run_end(s, p + 2, Class::Hex) == run_end(s, p + 3, Class::Hex));
        }
        if p + 1 < s.len() && is_digit(s[p + 1]) {
            lemma_run_end_bounds(s, p + 2, Class::Digit);
            assert(run_end(s, p + 1, Class::Digit) == run_end(s, p + 2, Class::Digit));
        }
    }
}

/// A longer string of digits denotes no smaller number than its prefix.
pub proof fn lemma_digits_value_prefix(s: Seq<u8>, k: int, hex: bool)
    requires
        0 <= k <= s.len(),
    ensures
        digits_value(s.subrange(0, k), hex) <= digits_value(s, hex),
    decreases s.len(),
{
    if k == s.len() {
        assert(s.subrange(0, k) =~= s);
    } else {
        lemma_digits_value_prefix(s.drop_last(), k, hex);
        assert(s.drop_last().subrange(0, k) =~= s.subrange(0, k));
    }
}

fn byte_in_class(c: Class, b: u8) -> (r: bool)
    ensures
        r == in_class(c, b),
{
    match c {
        Class::Digit => 48 <= b && b <= 57,
        Class::Hex => (48 <= b && b <= 57) || (97 <= b && b <= 102) || (65 <= b && b <= 70),
        Class::Word => (97 <= b && b <= 122) || (65 <= b && b <= 90) || b == 95 || (48 <= b && b <= 57),
        Class::Line => b != 10,
        Class::Continuation => 128 <= b && b <= 191,
    }
}

/// Finds where the run of class `c` that starts at `pos` ends.
pub fn find_run_end(src: &[u8], pos: usize, c: Class) -> (e: usize)
    requires
        pos <= src@.len(),
    ensures
        e == run_end(src@, pos as int, c),
        pos <= e <= src@.len(),
{
    let mut e: usize = pos;
    while e < src.len() && byte_in_class(c, src[e])
        invariant
            pos <= e <= src@.len(),
            run_end(src@, pos as int, c) == run_end(src@, e as int, c),
        decreases src@.len() - e,
    {
        e = e + 1;
    }
    e
}

/// Finds where blanks and comments end.
pub fn find_skip_end(src: &[u8], pos: usize) -> (p: usize)
    requires
        pos <= src@.len(),
    ensures
        p == skip_end(src@, pos as int),
        pos <= p <= src@.len(),
{
    let n: usize = src.len();
    let mut p: usize = pos;
    loop
        invariant
            n == src@.len(),
            pos <= p <= n,
            skip_end(src@, pos as int) == skip_end(src@, p as int),
        decreases n - p,
    {
        if p >= n {
            return p;
        }
        let b: u8 = src[p];
        if b == 32 || b == 9 || (11 <= b && b <= 13) {
            p = p + 1;
        } else if b == 47 && n - p >= 2 && src[p + 1] == 47 {
            p = find_run_end(src, p + 2, Class::Line);
        } else {
            return p;
        }
    }
}

/// Reads the digits in `from..to` as a number; `None` where it exceeds `usize`.
pub fn read_digits(src: &[u8], from: usize, to: usize, hex: bool) -> (r: Option<usize>)
    requires
        from <= to <= src@.len(),
        forall|i: int| from <= i < to ==> is_digit_of(#[trigger] src@[i], hex),
    ensures
        match r {
            Some(v) => v == digits_value(src@.subrange(from as int, to as int), hex),
            None => digits_value(src@.subrange(from as int, to as int), hex) > usize::MAX,
        },
{
    let ghost all = src@.subrange(from as int, to as int);
    let mut acc: usize = 0;
    let mut i: usize = from;
    while i < to
        invariant
            from <= i <= to <= src@.len(),
            all == src@.subrange(from as int, to as int),
            forall|j: int| from <= j < to ==> is_digit_of(#[trigger] src@[j], hex),
            acc == digits_value(src@.subrange(from as int, i as int), hex),
        decreases to - i,
    {
        let b: u8 = src[i];
        let d: usize = if b <= 57 {
            (b - 48) as usize
        } else if b >= 97 {
            (b - 87) as usize
        } else {
            (b - 55) as usize
        };
        let base: usize = if hex { 16 } else { 10 };
        proof {
            let next = src@.subrange(from as int, i as int + 1);
            assert(next.drop_last() =~= src@.subrange(from as int, i as int));
            assert(next.last() == b);
            assert(d == digit_value(b));
            assert(next =~= all.subrange(0, i + 1 - from));
            lemma_digits_value_prefix(all, i + 1 - from, hex);
        }
        if acc > (usize::MAX - d) / base {
            return None;
        }
        acc = if hex { acc * 16 + d } else { acc * 10 + d };
        i = i + 1;
    }
    Some(acc)
}

/// Builds an integer lexeme from the digits in `from..end`.
fn read_integer(src: &[u8], start: usize, from: usize, end: usize, hex: bool, neg: bool) -> (l: Lexeme)
    requires
        start <= from <= end <= src@.len(),
        forall|i: int| from <= i < end ==> is_digit_of(#[trigger] src@[i], hex),
    ensures
        l == integer_lexeme(src@, start as int, from as int, end as int, hex, neg),
{
    let span = Span { start, end };
    let token: Result<Token, ()> = match read_digits(src, from, end, hex) {
        None => Err(()),
        Some(m) => {
            let top: usize = isize::MAX as usize;
            if !neg {
                if m <= top {
                    Ok(Token::Integer(m as isize))
                } else {
                    Err(())
                }
            } else if m <= top {
                Ok(Token::Integer(-(m as isize)))
            } else if m == top + 1 {
                Ok(Token::Integer(isize::MIN))
            } else {
                Err(())
            }
        },
    };
    Lexeme { token, span }
}

/// All bytes of a run are of its class.
pub proof fn lemma_run_in_class(s: Seq<u8>, pos: int, c: Class)
    requires
        0 <= pos <= s.len(),
    ensures
        forall|i: int| pos <= i < run_end(s, pos, c) ==> in_class(c, #[trigger] s[i]),
    decreases s.len() - pos,
{
    if pos < s.len() && in_class(c, s[pos]) {
        lemma_run_in_class(s, pos + 1, c);
    }
}

/// Scans the next token at or after `pos`: `None` at the end of the text.
pub fn next_token(src: &[u8], pos: usize) -> (r: Option<Lexeme>)
    requires
        pos <= src@.len(),
    ensures
        r == scan(src@, pos as int),
        match r {
            Some(l) => pos <= l.span.start < l.span.end <= src@.len(),
            None => true,
        },
{
    let n: usize = src.len();
    proof {
        lemma_scan_advances(src@, pos as int);
    }
    let p: usize = find_skip_end(src, pos);
    if p >= n {
        return None;
    }
    let b: u8 = src[p];
    if b == 10 {
        return Some(Lexeme { token: Ok(Token::Newline), span: Span { start: p, end: p + 1 } });
    }
    if (97 <= b && b <= 122) || (65 <= b && b <= 90) || b == 95 {
        let e: usize = find_run_end(src, p + 1, Class::Word);
        if e < n && src[e] == 58 {
            return Some(Lexeme { token: Ok(Token::LabelDef), span: Span { start: p, end: e + 1 } });
        }
        if (b == 114 || b == 82) && e > p + 1 {
            let d: usize = find_run_end(src, p + 1, Class::Digit);
            if d == e {
                proof {
                    lemma_run_in_class(src@, p + 1, Class::Digit);
                }
                let token: Result<Token, ()> = match read_digits(src, p + 1, e, false) {
                    Some(v) => Ok(Token::Register(v)),
                    None => Err(()),
                };
                return Some(Lexeme { token, span: Span { start: p, end: e } });
            }
        }
        return Some(Lexeme { token: Ok(Token::Ident), span: Span { start: p, end: e } });
    }
    if b == 48 && n - p > 2 && src[p + 1] == 120 && byte_in_class(Class::Hex, src[p + 2]) {
        let e: usize = find_run_end(src, p + 2, Class::Hex);
        proof {
            lemma_run_in_class(src@, p + 2, Class::Hex);
        }
        return Some(read_integer(src, p, p + 2, e, true, false));
    }
    if 48 <= b && b <= 57 {
        let e: usize = find_run_end(src, p, Class::Digit);
        proof {
            lemma_run_in_class(src@, p as int, Class::Digit);
        }
        return Some(read_integer(src, p, p, e, false, false));
    }
    if b == 45 && n - p > 1 && byte_in_class(Class::Digit, src[p + 1]) {
        let e: usize = find_run_end(src, p + 1, Class::Digit);
        proof {
            lemma_run_in_class(src@, p + 1, Class::Digit);
        }
        return Some(read_integer(src, p, p + 1, e, false, true));
    }
    let e: usize = find_run_end(src, p + 1, Class::Continuation);
    Some(Lexeme { token: Err(()), span: Span { start: p, end: e } })
}

} // verus!
