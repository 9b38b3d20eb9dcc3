//! The lexer: reads exactly one token from the remaining input.
//!
//! Input is a byte slice; a position marks how far lexing has come.  The
//! specification-level lexer `spec_eat` defines, for every position, which
//! token (or lexical error) starts there; the executable `eat` is proved to
//! return exactly that.

use vstd::prelude::*;

verus! {

/// The tag of a token.  `Number` also carries the decoded value.
#[derive(Clone, Copy, Debug, PartialEq, Eq, Structural)]
pub enum TokenVariant {
    Again,
    Defer,
    Forget,
    N,
    Print,
    Read,
    U,
    Plus,
    Minus,
    Number(u64),
    String,
    UnBoolOp,
    BinBoolOp,
    BinNumBoolOp,
    MathOp,
    Comma,
    LeftParens,
    RightParens,
    Semicolon,
    Sharp,
    EOI,
}

/// One token: its tag and the exact byte range of input it was read from.
#[derive(Clone, Copy, Debug, PartialEq, Eq, Structural)]
pub struct Token {
    pub start: usize,
    pub end: usize,
    pub variant: TokenVariant,
}

/// What went wrong: the lexical failures and the grammar failures.
#[derive(Clone, Copy, Debug, PartialEq, Eq, Structural)]
pub enum ErrorKind {
    UnterminatedString,
    InvalidDigit,
    NumberTooLarge,
    UnknownToken,
    ExpectedNumber,
    ExpectedBoolean,
    ExpectedString,
    ExpectedStatement,
    ExpectedLeftParens,
    ExpectedRightParens,
    ExpectedSemicolon,
    ExpectedEndOfInput,
}

/// An error: its kind and the byte range of the offending input.
#[derive(Clone, Copy, Debug, PartialEq, Eq, Structural)]
pub struct ParseError {
    pub kind: ErrorKind,
    pub start: usize,
    pub end: usize,
}

impl ParseError {
    /// True for the failures of tokenization; false for those of the grammar.
    pub fn is_lex_error(&self) -> (r: bool)
        ensures
            r == (self.kind is UnterminatedString || self.kind is InvalidDigit
                || self.kind is NumberTooLarge || self.kind is UnknownToken),
    {
        match self.kind {
            ErrorKind::UnterminatedString => true,
            ErrorKind::InvalidDigit => true,
            ErrorKind::NumberTooLarge => true,
            ErrorKind::UnknownToken => true,
            _ => false,
        }
    }

    /// A short description of the error: the fixed wording of its kind.
    pub fn message(&self) -> (r: &'static str)
        ensures
            r@ == match self.kind {
                ErrorKind::UnterminatedString => "End of input while reading string"@,
                ErrorKind::InvalidDigit => "invalid digit found in string"@,
                ErrorKind::NumberTooLarge => "number too large to fit in target type"@,
                ErrorKind::UnknownToken => "Unknown token"@,
                ErrorKind::ExpectedNumber => "Expected number"@,
                ErrorKind::ExpectedBoolean => "Expected boolean"@,
                ErrorKind::ExpectedString => "Expected string"@,
                ErrorKind::ExpectedStatement => "Expected statement"@,
                ErrorKind::ExpectedLeftParens => "Expected `(`"@,
                ErrorKind::ExpectedRightParens => "Expected `)`"@,
                ErrorKind::ExpectedSemicolon => "Expected `;`"@,
                ErrorKind::ExpectedEndOfInput => "Expected end of input"@,
            },
    {
        match self.kind {
            ErrorKind::UnterminatedString => "End of input while reading string",
            ErrorKind::InvalidDigit => "invalid digit found in string",
            ErrorKind::NumberTooLarge => "number too large to fit in target type",
            ErrorKind::UnknownToken => "Unknown token",
            ErrorKind::ExpectedNumber => "Expected number",
            ErrorKind::ExpectedBoolean => "Expected boolean",
            ErrorKind::ExpectedString => "Expected string",
            ErrorKind::ExpectedStatement => "Expected statement",
            ErrorKind::ExpectedLeftParens => "Expected `(`",
            ErrorKind::ExpectedRightParens => "Expected `)`",
            ErrorKind::ExpectedSemicolon => "Expected `;`",
            ErrorKind::ExpectedEndOfInput => "Expected end of input",
        }
    }
}

/// The classes of bytes that the scanners recognize maximal runs of.
#[derive(Clone, Copy)]
pub enum ByteClass {
    Ws,
    Dec,
    Bin,
    Hex,
    Alpha,
}

/// ASCII whitespace: space, tab, line feed, vertical tab, form feed,
/// carriage return.
pub open spec fn is_ws(b: u8) -> bool {
    b == 32 || (9 <= b && b <= 13)
}

pub open spec fn is_dec_digit(b: u8) -> bool {
    48 <= b && b <= 57
}

pub open spec fn is_bin_digit(b: u8) -> bool {
    b == 48 || b == 49
}

pub open spec fn is_hex_digit(b: u8) -> bool {
    is_dec_digit(b) || (97 <= b && b <= 102) || (65 <= b && b <= 70)
}

pub open spec fn is_alpha(b: u8) -> bool {
    (97 <= b && b <= 122) || (65 <= b && b <= 90)
}

pub open spec fn in_class(c: ByteClass, b: u8) -> bool {
    match c {
        ByteClass::Ws => is_ws(b),
        ByteClass::Dec => is_dec_digit(b),
        ByteClass::Bin => is_bin_digit(b),
        ByteClass::Hex => is_hex_digit(b),
        ByteClass::Alpha => is_alpha(b),
    }
}

/// The end of the maximal run of bytes of class `c` that starts at `pos`.
pub open spec fn scan_end(s: Seq<u8>, pos: int, c: ByteClass) -> int
    decreases s.len() - pos,
{
    if pos < 0 || pos >= s.len() {
        pos
    } else if in_class(c, s[pos]) {
        scan_end(s, pos + 1, c)
    } else {
        pos
    }
}

pub proof fn lemma_scan_end(s: Seq<u8>, pos: int, c: ByteClass)
    requires
        0 <= pos <= s.len(),
    ensures
        pos <= scan_end(s, pos, c) <= s.len(),
        forall|i: int| pos <= i < scan_end(s, pos, c) ==> in_class(c, s[i]),
        scan_end(s, pos, c) < s.len() ==> !in_class(c, s[scan_end(s, pos, c)]),
    decreases s.len() - pos,
{
    if pos < s.len() && in_class(c, s[pos]) {
        lemma_scan_end(s, pos + 1, c);
    }
}

/// A maximal run determines where the scan ends: if everything in
/// `[pos, j2)` is of the class and `j2` is the end of input or holds a byte
/// outside it, the scan from `pos` ends exactly at `j2`.
pub proof fn lemma_scan_end_is(s: Seq<u8>, pos: int, j2: int, c: ByteClass)
    requires
        0 <= pos <= j2 <= s.len(),
        forall|i: int| pos <= i < j2 ==> in_class(c, s[i]),
        j2 < s.len() ==> !in_class(c, s[j2]),
    ensures
        scan_end(s, pos, c) == j2,
    decreases j2 - pos,
{
    if pos < j2 {
        lemma_scan_end_is(s, pos + 1, j2, c);
    }
}

/// The end of a string literal whose contents continue at `j` (just past the
/// opening quote, or past some prefix of the contents), with `esc` telling
/// whether the previous byte was an unescaped backslash.  The result is one
/// past the closing quote, or -1 if the input ends first.
pub open spec fn str_scan(s: Seq<u8>, j: int, esc: bool) -> int
    decreases s.len() - j,
{
    if j < 0 || j >= s.len() {
        -1
    } else if s[j] == 34 && !esc {
        j + 1
    } else {
        str_scan(s, j + 1, s[j] == 92 && !esc)
    }
}

pub proof fn lemma_str_scan(s: Seq<u8>, j: int, esc: bool)
    requires
        0 <= j <= s.len(),
    ensures
        str_scan(s, j, esc) == -1 || j < str_scan(s, j, esc) <= s.len(),
    decreases s.len() - j,
{
    if j < s.len() && !(s[j] == 34 && !esc) {
        lemma_str_scan(s, j + 1, s[j] == 92 && !esc);
    }
}

/// The numeric value of one digit byte, in any base up to 16; 99 marks a
/// byte that is no digit at all.
pub open spec fn digit_val(b: u8) -> int {
    if 48 <= b && b <= 57 {
        b - 48
    } else if 97 <= b && b <= 102 {
        b - 87
    } else if 65 <= b && b <= 70 {
        b - 55
    } else {
        99
    }
}

/// The outcome of decoding a digit run: the value, or the first failure
/// (reading left to right) — a digit invalid for the base, or a value that
/// no longer fits.
#[derive(Clone, Copy, Debug, PartialEq, Eq, Structural)]
pub enum Decoded {
    Val(u64),
    BadDigit,
    TooBig,
}

/// Decodes the digits of `s` in `[j, dend)` in the given base onto the
/// accumulator, failing at the first invalid digit or at the first overflow.
pub open spec fn decode_digits(s: Seq<u8>, j: int, dend: int, base: int, acc: int) -> Decoded
    decreases dend - j,
{
    if j < dend && 0 <= j < s.len() {
        let d = digit_val(s[j]);
        if d >= base {
            Decoded::BadDigit
        } else if acc * base + d > u64::MAX {
            Decoded::TooBig
        } else {
            decode_digits(s, j + 1, dend, base, acc * base + d)
        }
    } else if 0 <= acc <= u64::MAX {
        Decoded::Val(acc as u64)
    } else {
        Decoded::TooBig
    }
}

/// The shape of the numeral that starts at `i` (where `s[i]` is a decimal
/// digit): the base, and the range `[dstart, dend)` of the digits proper.
/// The numeral's own span is `[i, dend)`.
///
/// A leading `0` selects a base by the next byte: `b` binary, `x` or `X`
/// hexadecimal — each only when at least one digit of that base follows,
/// else the numeral is just the `0` — and a decimal digit octal, which
/// scans a run of decimal digits and decodes it in base 8.
pub open spec fn numeral_shape(s: Seq<u8>, i: int) -> (int, int, int) {
    if 0 <= i && i + 1 < s.len() && s[i] == 48 {
        let b1 = s[i + 1];
        if b1 == 98 {
            let e = scan_end(s, i + 2, ByteClass::Bin);
            if e > i + 2 {
                (2, i + 2, e)
            } else {
                (10, i, scan_end(s, i, ByteClass::Dec))
            }
        } else if b1 == 120 || b1 == 88 {
            let e = scan_end(s, i + 2, ByteClass::Hex);
            if e > i + 2 {
                (16, i + 2, e)
            } else {
                (10, i, scan_end(s, i, ByteClass::Dec))
            }
        } else if is_dec_digit(b1) {
            (8, i + 1, scan_end(s, i + 1, ByteClass::Dec))
        } else {
            (10, i, scan_end(s, i, ByteClass::Dec))
        }
    } else {
        (10, i, scan_end(s, i, ByteClass::Dec))
    }
}

/// The keyword whose bytes stand in `s` at `[i, e)`, if any.  Keywords are
/// case sensitive.
pub open spec fn kw_variant(s: Seq<u8>, i: int, e: int) -> Option<TokenVariant> {
    if e - i == 5 && s[i] == 97 && s[i + 1] == 103 && s[i + 2] == 97 && s[i + 3] == 105
        && s[i + 4] == 110 {
        Some(TokenVariant::Again)
    } else if e - i == 5 && s[i] == 100 && s[i + 1] == 101 && s[i + 2] == 102 && s[i + 3] == 101
        && s[i + 4] == 114 {
        Some(TokenVariant::Defer)
    } else if e - i == 6 && s[i] == 102 && s[i + 1] == 111 && s[i + 2] == 114 && s[i + 3] == 103
        && s[i + 4] == 101 && s[i + 5] == 116 {
        Some(TokenVariant::Forget)
    } else if e - i == 1 && s[i] == 78 {
        Some(TokenVariant::N)
    } else if e - i == 5 && s[i] == 112 && s[i + 1] == 114 && s[i + 2] == 105 && s[i + 3] == 110
        && s[i + 4] == 116 {
        Some(TokenVariant::Print)
    } else if e - i == 4 && s[i] == 114 && s[i + 1] == 101 && s[i + 2] == 97 && s[i + 3] == 100 {
        Some(TokenVariant::Read)
    } else if e - i == 1 && s[i] == 85 {
        Some(TokenVariant::U)
    } else {
        None
    }
}

/// The specification-level lexer: the token that starts at `pos` after
/// skipping whitespace, with the position just past it, or the lexical
/// error.  `eat` returns exactly this.
pub open spec fn spec_eat(s: Seq<u8>, pos: int) -> Result<(Token, usize), ParseError> {
    let i = scan_end(s, pos, ByteClass::Ws);
    if i >= s.len() {
        Ok((Token { start: i as usize, end: i as usize, variant: TokenVariant::EOI }, i as usize))
    } else {
        let b = s[i];
        if b == 43 {
            spec_tok(i, i + 1, TokenVariant::Plus)
        } else if b == 45 {
            spec_tok(i, i + 1, TokenVariant::Minus)
        } else if b == 42 || b == 47 {
            spec_tok(i, i + 1, TokenVariant::MathOp)
        } else if b == 33 {
            spec_tok(i, i + 1, TokenVariant::UnBoolOp)
        } else if b == 44 {
            spec_tok(i, i + 1, TokenVariant::Comma)
        } else if b == 40 {
            spec_tok(i, i + 1, TokenVariant::LeftParens)
        } else if b == 41 {
            spec_tok(i, i + 1, TokenVariant::RightParens)
        } else if b == 59 {
            spec_tok(i, i + 1, TokenVariant::Semicolon)
        } else if b == 35 {
            spec_tok(i, i + 1, TokenVariant::Sharp)
        } else if b == 34 {
            let e = str_scan(s, i + 1, false);
            if e >= 0 {
                spec_tok(i, e, TokenVariant::String)
            } else {
                spec_err(i, s.len() as int, ErrorKind::UnterminatedString)
            }
        } else if is_dec_digit(b) {
            let (base, dstart, dend) = numeral_shape(s, i);
            match decode_digits(s, dstart, dend, base, 0) {
                Decoded::Val(v) => spec_tok(i, dend, TokenVariant::Number(v)),
                Decoded::BadDigit => spec_err(dstart, dend, ErrorKind::InvalidDigit),
                Decoded::TooBig => spec_err(dstart, dend, ErrorKind::NumberTooLarge),
            }
        } else if is_alpha(b) {
            let e = scan_end(s, i + 1, ByteClass::Alpha);
            match kw_variant(s, i, e) {
                Some(v) => spec_tok(i, e, v),
                None => spec_err(i, s.len() as int, ErrorKind::UnknownToken),
            }
        } else if b == 60 || b == 62 {
            if i + 1 < s.len() && s[i + 1] == 61 {
                spec_tok(i, i + 2, TokenVariant::BinNumBoolOp)
            } else {
                spec_tok(i, i + 1, TokenVariant::BinNumBoolOp)
            }
        } else if i + 1 < s.len() && (b == 38 || b == 124) && s[i + 1] == b {
            spec_tok(i, i + 2, TokenVariant::BinBoolOp)
        } else if i + 1 < s.len() && b == 61 && s[i + 1] == 61 {
            spec_tok(i, i + 2, TokenVariant::BinNumBoolOp)
        } else {
            spec_err(i, s.len() as int, ErrorKind::UnknownToken)
        }
    }
}

pub open spec fn spec_tok(start: int, end: int, v: TokenVariant) -> Result<
    (Token, usize),
    ParseError,
> {
    Ok((Token { start: start as usize, end: end as usize, variant: v }, end as usize))
}

pub open spec fn spec_err(start: int, end: int, kind: ErrorKind) -> Result<
    (Token, usize),
    ParseError,
> {
    Err(ParseError { kind, start: start as usize, end: end as usize })
}

/// Bounds of the numeral whose first digit stands at `i`: the digit run is
/// non-empty, lies inside the input, and starts no earlier than `i`.
pub proof fn lemma_numeral_shape(s: Seq<u8>, i: int)
    requires
        0 <= i < s.len(),
        is_dec_digit(s[i]),
    ensures
        ({
            let (base, dstart, dend) = numeral_shape(s, i);
            &&& base == 2 || base == 8 || base == 10 || base == 16
            &&& i <= dstart < dend <= s.len()
            &&& i < dend
        }),
{
    lemma_scan_end(s, i, ByteClass::Dec);
    assert(scan_end(s, i, ByteClass::Dec) > i) by {
        assert(in_class(ByteClass::Dec, s[i]));
    }
    if i + 1 < s.len() {
        lemma_scan_end(s, i + 1, ByteClass::Dec);
        if is_dec_digit(s[i + 1]) {
            assert(scan_end(s, i + 1, ByteClass::Dec) > i + 1) by {
                assert(in_class(ByteClass::Dec, s[i + 1]));
            }
        }
        if i + 2 <= s.len() {
            lemma_scan_end(s, i + 2, ByteClass::Bin);
            lemma_scan_end(s, i + 2, ByteClass::Hex);
        }
    }
}

/// What every result of `spec_eat` looks like: the token begins at the end
/// of the whitespace run that starts at `pos`, ends where lexing resumes,
/// is empty exactly for end of input, and error spans lie inside the input.
pub proof fn lemma_eat_bounds(s: Seq<u8>, pos: int)
    requires
        0 <= pos <= s.len() <= usize::MAX,
    ensures
        match spec_eat(s, pos) {
            Ok((t, n)) => {
                &&& pos <= t.start <= t.end == n <= s.len()
                &&& t.start == scan_end(s, pos, ByteClass::Ws)
                &&& (t.variant is EOI <==> t.start == s.len())
                &&& (!(t.variant is EOI) ==> t.start < t.end)
                &&& forall|k: int| pos <= k < t.start ==> is_ws(s[k])
            },
            Err(e) => pos <= e.start <= e.end <= s.len(),
        },
{
    lemma_scan_end(s, pos, ByteClass::Ws);
    let i = scan_end(s, pos, ByteClass::Ws);
    if i < s.len() {
        let b = s[i];
        if b == 34 {
            lemma_str_scan(s, i + 1, false);
        } else if is_dec_digit(b) {
            lemma_numeral_shape(s, i);
        } else if is_alpha(b) {
            lemma_scan_end(s, i + 1, ByteClass::Alpha);
        }
    }
}

/// `lemma_eat_bounds` over every position at once, for proofs that speak
/// of positions they cannot name.
pub proof fn lemma_eat_bounds_all(s: Seq<u8>)
    ensures
        s.len() <= usize::MAX ==> forall|p: int|
            0 <= p <= s.len() ==> match #[trigger] spec_eat(s, p) {
                Ok((t, n)) => {
                    &&& p <= t.start <= t.end == n <= s.len()
                    &&& (!(t.variant is EOI) ==> t.start < t.end)
                },
                Err(e) => p <= e.start <= e.end <= s.len(),
            },
{
    if s.len() <= usize::MAX {
        assert forall|p: int| #![trigger spec_eat(s, p)] 0 <= p <= s.len() implies match spec_eat(
            s,
            p,
        ) {
            Ok((t, n)) => {
                &&& p <= t.start <= t.end == n <= s.len()
                &&& (!(t.variant is EOI) ==> t.start < t.end)
            },
            Err(e) => p <= e.start <= e.end <= s.len(),
        } by {
            lemma_eat_bounds(s, p);
        }
    }
}

/// Lexing is context free: a token found after skipping whitespace is also
/// found by lexing at its own start.
pub proof fn lemma_eat_at_start(s: Seq<u8>, pos: int)
    requires
        0 <= pos <= s.len() <= usize::MAX,
        spec_eat(s, pos) is Ok,
    ensures
        spec_eat(s, spec_eat(s, pos)->Ok_0.0.start as int) == spec_eat(s, pos),
{
    lemma_eat_bounds(s, pos);
    let i = scan_end(s, pos, ByteClass::Ws);
    lemma_scan_end(s, pos, ByteClass::Ws);
    assert(scan_end(s, i, ByteClass::Ws) == i);
}

fn byte_at(input: &[u8], i: usize) -> (r: u8)
    requires
        i < input@.len(),
    ensures
        r == input@[i as int],
{
    *vstd::slice::slice_index_get(input, i)
}

fn in_class_at(c: ByteClass, b: u8) -> (r: bool)
    ensures
        r == in_class(c, b),
{
    match c {
        ByteClass::Ws => b == 32 || (9 <= b && b <= 13),
        ByteClass::Dec => 48 <= b && b <= 57,
        ByteClass::Bin => b == 48 || b == 49,
        ByteClass::Hex => (48 <= b && b <= 57) || (97 <= b && b <= 102) || (65 <= b && b <= 70),
        ByteClass::Alpha => (97 <= b && b <= 122) || (65 <= b && b <= 90),
    }
}

/// Scans the maximal run of bytes of class `c` from `pos` and returns the
/// position just past it.
pub(crate) fn scan(input: &[u8], pos: usize, c: ByteClass) -> (r: usize)
    requires
        pos <= input@.len(),
    ensures
        r == scan_end(input@, pos as int, c),
        pos <= r <= input@.len(),
{
    let mut j = pos;
    while j < input.len() && in_class_at(c, byte_at(input, j))
        invariant
            pos <= j <= input@.len(),
            scan_end(input@, pos as int, c) == scan_end(input@, j as int, c),
        decreases input@.len() - j,
    {
        j = j + 1;
    }
    j
}

/// Scans string-literal contents from `j` (just past the opening quote):
/// a backslash escapes the next byte; an unescaped quote ends the literal.
/// Returns the position one past the closing quote, or `None` if the input
/// ends inside the literal.
fn scan_string(input: &[u8], j: usize) -> (r: Option<usize>)
    requires
        j <= input@.len(),
    ensures
        match r {
            Some(e) => e == str_scan(input@, j as int, false),
            None => str_scan(input@, j as int, false) == -1,
        },
{
    let mut k = j;
    let mut esc = false;
    loop
        invariant
            j <= k <= input@.len(),
            str_scan(input@, j as int, false) == str_scan(input@, k as int, esc),
        decreases input@.len() - k,
    {
        if k >= input.len() {
            return None;
        }
        let b = byte_at(input, k);
        if b == 34 && !esc {
            return Some(k + 1);
        }
        esc = b == 92 && !esc;
        k = k + 1;
    }
}

pub(crate) fn digit_val_at(b: u8) -> (r: u64)
    ensures
        r == digit_val(b),
{
    if 48 <= b && b <= 57 {
        (b - 48) as u64
    } else if 97 <= b && b <= 102 {
        (b - 87) as u64
    } else if 65 <= b && b <= 70 {
        (b - 55) as u64
    } else {
        99
    }
}

/// Decodes the digit run `[dstart, dend)` in the given base, reporting the
/// first invalid digit or the first overflow instead of a value.
fn decode(input: &[u8], dstart: usize, dend: usize, base: u64) -> (r: Decoded)
    requires
        dstart <= dend <= input@.len(),
        2 <= base <= 16,
    ensures
        r == decode_digits(input@, dstart as int, dend as int, base as int, 0),
{
    let mut j = dstart;
    let mut acc: u64 = 0;
    while j < dend
        invariant
            dstart <= j <= dend <= input@.len(),
            2 <= base <= 16,
            decode_digits(input@, dstart as int, dend as int, base as int, 0)
                == decode_digits(input@, j as int, dend as int, base as int, acc as int),
        decreases dend - j,
    {
        let d = digit_val_at(byte_at(input, j));
        if d >= base {
            return Decoded::BadDigit;
        }
        assert(acc as int * base as int + d as int <= u64::MAX * 16 + 15) by (nonlinear_arith)
            requires
                acc <= u64::MAX,
                base <= 16,
                d <= 15,
        ;
        let wide: u128 = acc as u128 * base as u128 + d as u128;
        if wide > u64::MAX as u128 {
            return Decoded::TooBig;
        }
        acc = wide as u64;
        j = j + 1;
    }
    Decoded::Val(acc)
}

/// Reads a token from the input.
///
/// Skips leading whitespace, then recognizes exactly one token by its first
/// byte and returns it together with the position just past it — exactly
/// what the specification-level lexer `spec_eat` says.
///
/// # Errors
///
/// An error names its kind and the byte range where it happened:
/// * end of input inside a string literal,
/// * a digit invalid for the numeral's base, or a value too large,
/// * a token that is not known (keywords are case sensitive).
pub fn eat(input: &[u8], pos: usize) -> (r: Result<(Token, usize), ParseError>)
    requires
        pos <= input@.len(),
    ensures
        r == spec_eat(input@, pos as int),
{
    let len = input.len();
    let i = scan(input, pos, ByteClass::Ws);
    if i >= len {
        return Ok((Token { start: i, end: i, variant: TokenVariant::EOI }, i));
    }
    let b = byte_at(input, i);
    if b == 43 {
        Ok((Token { start: i, end: i + 1, variant: TokenVariant::Plus }, i + 1))
    } else if b == 45 {
        Ok((Token { start: i, end: i + 1, variant: TokenVariant::Minus }, i + 1))
    } else if b == 42 || b == 47 {
        Ok((Token { start: i, end: i + 1, variant: TokenVariant::MathOp }, i + 1))
    } else if b == 33 {
        Ok((Token { start: i, end: i + 1, variant: TokenVariant::UnBoolOp }, i + 1))
    } else if b == 44 {
        Ok((Token { start: i, end: i + 1, variant: TokenVariant::Comma }, i + 1))
    } else if b == 40 {
        Ok((Token { start: i, end: i + 1, variant: TokenVariant::LeftParens }, i + 1))
    } else if b == 41 {
        Ok((Token { start: i, end: i + 1, variant: TokenVariant::RightParens }, i + 1))
    } else if b == 59 {
        Ok((Token { start: i, end: i + 1, variant: TokenVariant::Semicolon }, i + 1))
    } else if b == 35 {
        Ok((Token { start: i, end: i + 1, variant: TokenVariant::Sharp }, i + 1))
    } else if b == 34 {
        match scan_string(input, i + 1) {
            Some(e) => {
                proof {
                    lemma_str_scan(input@, i + 1, false);
                }
                Ok((Token { start: i, end: e, variant: TokenVariant::String }, e))
            },
            None => Err(
                ParseError { kind: ErrorKind::UnterminatedString, start: i, end: len },
            ),
        }
    } else if 48 <= b && b <= 57 {
        let (base, dstart, dend) = numeral_shape_at(input, i);
        proof {
            lemma_numeral_shape(input@, i as int);
        }
        match decode(input, dstart, dend, base) {
            Decoded::Val(v) => Ok(
                (Token { start: i, end: dend, variant: TokenVariant::Number(v) }, dend),
            ),
            Decoded::BadDigit => Err(
                ParseError { kind: ErrorKind::InvalidDigit, start: dstart, end: dend },
            ),
            Decoded::TooBig => Err(
                ParseError { kind: ErrorKind::NumberTooLarge, start: dstart, end: dend },
            ),
        }
    } else if (97 <= b && b <= 122) || (65 <= b && b <= 90) {
        let e = scan(input, i + 1, ByteClass::Alpha);
        match keyword_at(input, i, e) {
            Some(v) => Ok((Token { start: i, end: e, variant: v }, e)),
            None => Err(ParseError { kind: ErrorKind::UnknownToken, start: i, end: len }),
        }
    } else if b == 60 || b == 62 {
        if i + 1 < len && byte_at(input, i + 1) == 61 {
            Ok((Token { start: i, end: i + 2, variant: TokenVariant::BinNumBoolOp }, i + 2))
        } else {
            Ok((Token { start: i, end: i + 1, variant: TokenVariant::BinNumBoolOp }, i + 1))
        }
    } else if i + 1 < len && (b == 38 || b == 124) && byte_at(input, i + 1) == b {
        Ok((Token { start: i, end: i + 2, variant: TokenVariant::BinBoolOp }, i + 2))
    } else if i + 1 < len && b == 61 && byte_at(input, i + 1) == 61 {
        Ok((Token { start: i, end: i + 2, variant: TokenVariant::BinNumBoolOp }, i + 2))
    } else {
        Err(ParseError { kind: ErrorKind::UnknownToken, start: i, end: len })
    }
}

/// The base and digit range of the numeral whose first digit is at `i`,
/// as `numeral_shape` describes it.
fn numeral_shape_at(input: &[u8], i: usize) -> (r: (u64, usize, usize))
    requires
        i < input@.len(),
        is_dec_digit(input@[i as int]),
    ensures
        (r.0 as int, r.1 as int, r.2 as int) == numeral_shape(input@, i as int),
{
    let len = input.len();
    if i + 1 < len && byte_at(input, i) == 48 {
        let b1 = byte_at(input, i + 1);
        if b1 == 98 {
            let e = scan(input, i + 2, ByteClass::Bin);
            if e > i + 2 {
                (2, i + 2, e)
            } else {
                (10, i, scan(input, i, ByteClass::Dec))
            }
        } else if b1 == 120 || b1 == 88 {
            let e = scan(input, i + 2, ByteClass::Hex);
            if e > i + 2 {
                (16, i + 2, e)
            } else {
                (10, i, scan(input, i, ByteClass::Dec))
            }
        } else if 48 <= b1 && b1 <= 57 {
            (8, i + 1, scan(input, i + 1, ByteClass::Dec))
        } else {
            (10, i, scan(input, i, ByteClass::Dec))
        }
    } else {
        (10, i, scan(input, i, ByteClass::Dec))
    }
}

/// The keyword standing in `[i, e)`, as `kw_variant` describes it.
fn keyword_at(input: &[u8], i: usize, e: usize) -> (r: Option<TokenVariant>)
    requires
        i < e <= input@.len(),
    ensures
        r == kw_variant(input@, i as int, e as int),
{
    let n = e - i;
    if n == 5 && byte_at(input, i) == 97 && byte_at(input, i + 1) == 103
        && byte_at(input, i + 2) == 97 && byte_at(input, i + 3) == 105
        && byte_at(input, i + 4) == 110 {
        Some(TokenVariant::Again)
    } else if n == 5 && byte_at(input, i) == 100 && byte_at(input, i + 1) == 101
        && byte_at(input, i + 2) == 102 && byte_at(input, i + 3) == 101
        && byte_at(input, i + 4) == 114 {
        Some(TokenVariant::Defer)
    } else if n == 6 && byte_at(input, i) == 102 && byte_at(input, i + 1) == 111
        && byte_at(input, i + 2) == 114 && byte_at(input, i + 3) == 103
        && byte_at(input, i + 4) == 101 && byte_at(input, i + 5) == 116 {
        Some(TokenVariant::Forget)
    } else if n == 1 && byte_at(input, i) == 78 {
        Some(TokenVariant::N)
    } else if n == 5 && byte_at(input, i) == 112 && byte_at(input, i + 1) == 114
        && byte_at(input, i + 2) == 105 && byte_at(input, i + 3) == 110
        && byte_at(input, i + 4) == 116 {
        Some(TokenVariant::Print)
    } else if n == 4 && byte_at(input, i) == 114 && byte_at(input, i + 1) == 101
        && byte_at(input, i + 2) == 97 && byte_at(input, i + 3) == 100 {
        Some(TokenVariant::Read)
    } else if n == 1 && byte_at(input, i) == 85 {
        Some(TokenVariant::U)
    } else {
        None
    }
}

} // verus!
